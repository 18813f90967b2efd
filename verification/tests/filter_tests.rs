use playout_core::filter::{filter_node, split_filter};

#[test]
fn both_markers_video_first() {
    let r = split_filter("scale=320:180[c_v_out]volume=0.5[c_a_out]");
    assert_eq!(r.video, "scale=320:180");
    assert_eq!(r.audio, "volume=0.5");
    assert!(!r.malformed);
}

#[test]
fn both_markers_audio_first() {
    let r = split_filter("volume=0.5[c_a_out]scale=320:180[c_v_out]");
    assert_eq!(r.video, "scale=320:180");
    assert_eq!(r.audio, "volume=0.5");
    assert!(!r.malformed);
}

#[test]
fn markers_adjacent_no_content() {
    let r = split_filter("[c_v_out][c_a_out]");
    assert_eq!(r.video, "");
    assert_eq!(r.audio, "");
    assert!(!r.malformed);
}

#[test]
fn no_marker_tokens_leak() {
    let r = split_filter("scale=320:180[c_v_out]volume=0.5[c_a_out]");
    assert!(!r.video.contains("[c_v_out]") && !r.video.contains("[c_a_out]"));
    assert!(!r.audio.contains("[c_v_out]") && !r.audio.contains("[c_a_out]"));
}

#[test]
fn empty_text_is_silent() {
    let r = split_filter("");
    assert_eq!(r.video, "");
    assert_eq!(r.audio, "");
    assert!(!r.malformed);
}

#[test]
fn sentinel_is_silent() {
    let r = split_filter("~");
    assert_eq!(r.video, "");
    assert_eq!(r.audio, "");
    assert!(!r.malformed);
}

#[test]
fn no_marker_content_warns_once() {
    let r = split_filter("scale=100");
    assert_eq!(r.video, "");
    assert_eq!(r.audio, "");
    assert!(r.malformed);
}

#[test]
fn video_only_with_labels() {
    let r = split_filter(";[v01]scale=100[c_v_out]");
    assert_eq!(r.video, "scale=100");
    assert_eq!(r.audio, "");
    assert!(!r.malformed);
}

#[test]
fn audio_only() {
    let r = split_filter("volume=0.3[c_a_out]");
    assert_eq!(r.video, "");
    assert_eq!(r.audio, "volume=0.3");
    assert!(!r.malformed);
}

#[test]
fn inner_labels_preserved() {
    let r = split_filter("split[a][b];[a]scale=100[c_v_out]");
    assert_eq!(r.video, "split[a][b];[a]scale=100");
    assert_eq!(r.audio, "");
    assert!(!r.malformed);
}

#[test]
fn video_in_link_restored() {
    let r = split_filter("[v_in]scale=100[c_v_out]");
    assert_eq!(r.video, "[v_in]scale=100");
    assert_eq!(r.audio, "");
    assert!(!r.malformed);
}

#[test]
fn video_in_link_restored_with_both_markers() {
    let r = split_filter("[v_in]scale=100[c_v_out]volume=0.5[c_a_out]");
    assert_eq!(r.video, "[v_in]scale=100");
    assert_eq!(r.audio, "volume=0.5");
    assert!(!r.malformed);
}

#[test]
fn video_in_link_kept_even_when_malformed() {
    let r = split_filter("[v_in]x");
    assert_eq!(r.video, "[v_in]");
    assert_eq!(r.audio, "");
    assert!(r.malformed);
}

#[test]
fn filter_node_pair_matches_split() {
    let (video, audio) = filter_node("scale=320:180[c_v_out]volume=0.5[c_a_out]");
    assert_eq!(video, "scale=320:180");
    assert_eq!(audio, "volume=0.5");
}
