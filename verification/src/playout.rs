//! Playout loop state machine: what the loop does with each media
//! item, and how each inner iteration multiplexes decoder bytes and
//! live-ingest bytes into the encoder's input pipe.
//!
//! The loop thread performs the byte I/O; these functions take the
//! observed flags and I/O outcomes and decide every step, so that the
//! switching semantics live here and are verified.

use vstd::prelude::*;

verus! {

/// Fixed ingest chunk buffer size; reads and writes use this size so
/// that stream framing is kept.
pub const INGEST_BUFFER_LEN: usize = 65088;

/// Depth of the bounded live-ingest channel.
pub const INGEST_CHANNEL_DEPTH: usize = 8;

/// One schedulable unit of playback, produced by the source selector
/// and consumed exactly once by the loop.
pub struct MediaItem {
    /// Source path or identifier.
    pub source: String,
    /// Seek offset of the segment, in seconds.
    pub seek: u64,
    /// Out point of the segment, in seconds.
    pub out: u64,
    /// Decode command tokens; an item without one ends the run.
    pub cmd: Option<Vec<String>>,
    /// Filter-graph argument tokens; a list of at most one token
    /// means no filtering was requested.
    pub filter: Option<Vec<String>>,
    /// Whether the item is decoded at all; false marks a placeholder
    /// gap that is consumed silently.
    pub process: Option<bool>,
}

/// What the loop does with one item.
pub enum ItemPlan {
    /// The item carries no decode command: the run ends.
    EndRun,
    /// The process flag is false: skip, spawning nothing.
    Skip,
    /// Spawn the decoder with exactly these arguments.
    Play(Vec<String>),
}

/// The decoder argument vector: fixed diagnostic flags and the log
/// level first, then the item's decode command, then the filter
/// tokens when more than one was given, then the global decode
/// settings last.
pub open spec fn decoder_args(
    log_flag: Seq<char>,
    cmd: Seq<Seq<char>>,
    filter: Seq<Seq<char>>,
    settings: Seq<Seq<char>>,
) -> Seq<Seq<char>> {
    seq!["-hide_banner"@, "-nostats"@, "-v"@, log_flag] + cmd + (if filter.len() > 1 {
        filter
    } else {
        Seq::<Seq<char>>::empty()
    }) + settings
}

/// Decides what the loop does with `item`, assembling the decoder
/// arguments when the item is played.
pub fn plan_item(item: &MediaItem, log_flag: &str, settings: &Vec<String>) -> (p: ItemPlan)
    requires
        item.cmd is Some ==> item.process is Some,
        item.cmd is Some && item.process == Some(true) ==> item.filter is Some,
    ensures
        item.cmd is None ==> p is EndRun,
        item.cmd is Some && item.process == Some(false) ==> p is Skip,
        item.cmd is Some && item.process == Some(true) ==> (p matches ItemPlan::Play(args)
            && args.deep_view() == decoder_args(
            log_flag@,
            item.cmd->0.deep_view(),
            item.filter->0.deep_view(),
            settings.deep_view(),
        )),
{
    let cmd = match &item.cmd {
        None => {
            return ItemPlan::EndRun;
        },
        Some(cmd) => cmd,
    };
    let process = match item.process {
        Some(b) => b,
        None => false,
    };
    if !process {
        return ItemPlan::Skip;
    }
    let filter = match &item.filter {
        None => {
            return ItemPlan::Skip;
        },
        Some(filter) => filter,
    };
    let ghost prefix: Seq<Seq<char>> = seq!["-hide_banner"@, "-nostats"@, "-v"@, log_flag@];
    let mut args: Vec<String> = Vec::new();
    args.push(String::from_str("-hide_banner"));
    args.push(String::from_str("-nostats"));
    args.push(String::from_str("-v"));
    args.push(String::from_str(log_flag));
    proof {
        assert(args.deep_view() =~= prefix);
    }
    let mut i: usize = 0;
    while i < cmd.len()
        invariant
            i <= cmd.len(),
            args.deep_view() == prefix + cmd.deep_view().subrange(0, i as int),
        decreases cmd.len() - i,
    {
        let ghost pre_dv = args.deep_view();
        let ghost pre_view = args@;
        args.push(cmd[i].clone());
        proof {
            assert forall|l: int| 0 <= l < pre_view.len() implies pre_dv[l] == pre_view[l]@ by {}
            assert(args.deep_view() =~= pre_dv.push(cmd.deep_view()[i as int]));
            assert(pre_dv.push(cmd.deep_view()[i as int]) =~= prefix + cmd.deep_view().subrange(
                0,
                i as int + 1,
            ));
        }
        i = i + 1;
    }
    proof {
        assert(cmd.deep_view().subrange(0, cmd.len() as int) =~= cmd.deep_view());
    }
    let ghost with_cmd: Seq<Seq<char>> = prefix + cmd.deep_view();
    if filter.len() > 1 {
        let mut j: usize = 0;
        while j < filter.len()
            invariant
                j <= filter.len(),
                args.deep_view() == with_cmd + filter.deep_view().subrange(0, j as int),
            decreases filter.len() - j,
        {
            let ghost pre_dv = args.deep_view();
            let ghost pre_view = args@;
            args.push(filter[j].clone());
            proof {
                assert forall|l: int| 0 <= l < pre_view.len() implies pre_dv[l] == pre_view[l]@ by {}
                assert(args.deep_view() =~= pre_dv.push(filter.deep_view()[j as int]));
                assert(pre_dv.push(filter.deep_view()[j as int]) =~= with_cmd
                    + filter.deep_view().subrange(0, j as int + 1));
            }
            j = j + 1;
        }
        proof {
            assert(filter.deep_view().subrange(0, filter.len() as int) =~= filter.deep_view());
        }
    }
    let ghost with_filter: Seq<Seq<char>> = with_cmd + (if filter.deep_view().len() > 1 {
        filter.deep_view()
    } else {
        Seq::<Seq<char>>::empty()
    });
    proof {
        assert(args.deep_view() =~= with_filter);
    }
    let mut k: usize = 0;
    while k < settings.len()
        invariant
            k <= settings.len(),
            args.deep_view() == with_filter + settings.deep_view().subrange(0, k as int),
        decreases settings.len() - k,
    {
        let ghost pre_dv = args.deep_view();
        let ghost pre_view = args@;
        args.push(settings[k].clone());
        proof {
            assert forall|l: int| 0 <= l < pre_view.len() implies pre_dv[l] == pre_view[l]@ by {}
            assert(args.deep_view() =~= pre_dv.push(settings.deep_view()[k as int]));
            assert(pre_dv.push(settings.deep_view()[k as int]) =~= with_filter
                + settings.deep_view().subrange(0, k as int + 1));
        }
        k = k + 1;
    }
    proof {
        assert(settings.deep_view().subrange(0, settings.len() as int) =~= settings.deep_view());
        assert(args.deep_view() =~= decoder_args(
            log_flag@,
            cmd.deep_view(),
            filter.deep_view(),
            settings.deep_view(),
        ));
    }
    ItemPlan::Play(args)
}

/// The two states of the loop: scheduled playback, or live ingest.
/// The loop starts in scheduled playback.
pub struct PlayoutState {
    /// True while bytes come from the live-ingest channel.
    pub live: bool,
}

/// What one inner iteration must do, in field order, before its byte
/// I/O.
#[derive(PartialEq, Eq, Structural, Clone, Copy, Debug)]
pub struct IterationPlan {
    /// Flush the encoder's buffered output first (a state change).
    pub flush_encoder: bool,
    /// Kill and wait the current decoder process, so it stops
    /// competing for the encoder's input pipe (entering live only).
    pub stop_decoder: bool,
    /// Set the shared reinitialize flag so the schedule producer
    /// re-derives its position when live ends (entering live only).
    pub set_reinit: bool,
    /// Poll the ingest channel without blocking; otherwise read one
    /// chunk from the decoder.
    pub read_ingest: bool,
}

impl PlayoutState {
    /// The initial state: scheduled playback.
    pub fn new() -> (st: PlayoutState)
        ensures
            !st.live,
    {
        PlayoutState { live: false }
    }

    /// Decides one inner iteration from the shared ingest-running
    /// flag.  Exactly the state edges flush the encoder; only the
    /// edge into live stops the decoder and requests the schedule
    /// reset; the byte source follows the flag alone, so decoder and
    /// ingest bytes are never mixed in one state.
    pub fn plan_iteration(&mut self, ingest_running: bool) -> (p: IterationPlan)
        ensures
            final(self).live == ingest_running,
            p.read_ingest == ingest_running,
            p.flush_encoder == (old(self).live != ingest_running),
            p.stop_decoder == (!old(self).live && ingest_running),
            p.set_reinit == (!old(self).live && ingest_running),
    {
        let entering_live = !self.live && ingest_running;
        let leaving_live = self.live && !ingest_running;
        self.live = ingest_running;
        IterationPlan {
            flush_encoder: entering_live || leaving_live,
            stop_decoder: entering_live,
            set_reinit: entering_live,
            read_ingest: ingest_running,
        }
    }
}

/// The outcome of the byte I/O of one inner iteration.
#[derive(PartialEq, Eq, Structural, Clone, Copy, Debug)]
pub enum IoEvent {
    /// The non-blocking ingest poll found no chunk.
    IngestIdle,
    /// An ingest chunk was received and written; `written` reports
    /// whether the write to the encoder's input succeeded.
    IngestChunk { written: bool },
    /// `len` bytes were read from the decoder (zero means the
    /// decoder's output is exhausted, and nothing was written);
    /// `written` reports the write when `len` is positive.
    DecoderChunk { len: usize, written: bool },
    /// The read from the decoder failed.
    DecoderFailed,
}

/// What the loop does after one inner iteration.
#[derive(PartialEq, Eq, Structural, Clone, Copy, Debug)]
pub enum Directive {
    /// Keep multiplexing the current item.
    ContinueItem,
    /// The item's decoder is exhausted: wait on it and take the next
    /// item; the run is not failed.
    FinishItem,
    /// A stream error: end the whole run, then clean up.
    AbortRun,
}

/// The directive an I/O outcome leads to: an exhausted decoder ends
/// only the item; every read or write error ends the whole run.
pub open spec fn spec_directive(ev: IoEvent) -> Directive {
    match ev {
        IoEvent::IngestIdle => Directive::ContinueItem,
        IoEvent::IngestChunk { written } => if written {
            Directive::ContinueItem
        } else {
            Directive::AbortRun
        },
        IoEvent::DecoderChunk { len, written } => if len == 0 {
            Directive::FinishItem
        } else if written {
            Directive::ContinueItem
        } else {
            Directive::AbortRun
        },
        IoEvent::DecoderFailed => Directive::AbortRun,
    }
}

/// Decides how the loop goes on after one iteration's byte I/O.
pub fn next_directive(ev: &IoEvent) -> (d: Directive)
    ensures
        d == spec_directive(*ev),
{
    match ev {
        IoEvent::IngestIdle => Directive::ContinueItem,
        IoEvent::IngestChunk { written } => {
            if *written {
                Directive::ContinueItem
            } else {
                Directive::AbortRun
            }
        },
        IoEvent::DecoderChunk { len, written } => {
            if *len == 0 {
                Directive::FinishItem
            } else if *written {
                Directive::ContinueItem
            } else {
                Directive::AbortRun
            }
        },
        IoEvent::DecoderFailed => Directive::AbortRun,
    }
}

} // verus!
