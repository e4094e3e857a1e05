//! The saved score: its record in the player file, loading it back, and
//! adding points to it.

use vstd::prelude::*;
use crate::text::{decimal, push_decimal, push_str};

verus! {

/// The `[playerinfo]` table of the player file.
pub struct PlayerInfo {
    pub score: usize,
}

/// The player file as the TOML reader hands it over.
pub struct PlayerToml {
    pub playerinfo: PlayerInfo,
}

/// The text of the player file that holds `score`:
/// "[playerinfo]", a line break, "score = ", the decimal score, a line break.
pub open spec fn score_record_text(score: nat) -> Seq<char> {
    "[playerinfo]\nscore = "@ + decimal(score) + "\n"@
}

/// The player file text for a score.
pub fn score_record(score: usize) -> (res: String)
    ensures
        res@ == score_record_text(score as nat),
{
    let mut res = String::from_str("[playerinfo]\nscore = ");
    push_decimal(&mut res, score);
    push_str(&mut res, "\n");
    res
}

/// The player file text after `points` are added to the saved `current`
/// score (the sum must fit; an overflowing sum is a fatal error of the game).
pub fn score_add_record(current: usize, points: usize) -> (res: String)
    requires
        current + points <= usize::MAX,
    ensures
        res@ == score_record_text((current + points) as nat),
{
    score_record(current + points)
}

/// Where loading the saved score stands.
pub enum ScoreLoad {
    /// The player file is being read.
    Reading,
    /// The file was missing; a fresh file with a zero score is being written.
    WritingDefault,
    /// The text is being read as TOML.
    Parsing,
    /// Loading is over with this score.
    Done(usize),
}

/// What the outside world reports back.
pub enum ScoreEvent {
    /// The player file was read with this text.
    Read(String),
    /// The player file could not be read.
    ReadFailed,
    /// The fresh file was written.
    Written,
    /// Writing the fresh file failed.
    WriteFailed,
    /// The TOML reading gave this player file, or `None` when it failed.
    Parsed(Option<PlayerToml>),
}

/// Why loading ended with a zero score.
pub enum ScoreComplaint {
    /// The fresh file could not be written (the I/O error is logged).
    WriteFailed,
    /// The text is not a player file ("Maleble ŝarĝi datumon de ludanto!").
    Unreadable,
}

/// What the outside world is asked to do next.
pub enum ScoreAction {
    /// Read the player file.
    ReadFile,
    /// Create the player file and write this text into it.
    WriteDefault(String),
    /// Read this text as a TOML player file.
    Parse(String),
    /// Loading is over: return this score, after logging the complaint.
    Finish(usize, Option<ScoreComplaint>),
    /// The event does not answer the pending request; nothing to do.
    Wait,
}

/// A request to the outside world, with texts as characters.
pub enum ActionView {
    ReadFile,
    WriteDefault(Seq<char>),
    Parse(Seq<char>),
    Finish(usize, Option<ScoreComplaint>),
    Wait,
}

/// A report of the outside world, with texts as characters and a player
/// file as its score.
pub enum EventView {
    Read(Seq<char>),
    ReadFailed,
    Written,
    WriteFailed,
    Parsed(Option<usize>),
}

impl View for ScoreAction {
    type V = ActionView;

    open spec fn view(&self) -> ActionView {
        match self {
            ScoreAction::ReadFile => ActionView::ReadFile,
            ScoreAction::WriteDefault(t) => ActionView::WriteDefault(t@),
            ScoreAction::Parse(t) => ActionView::Parse(t@),
            ScoreAction::Finish(n, c) => ActionView::Finish(*n, *c),
            ScoreAction::Wait => ActionView::Wait,
        }
    }
}

impl View for ScoreEvent {
    type V = EventView;

    open spec fn view(&self) -> EventView {
        match self {
            ScoreEvent::Read(t) => EventView::Read(t@),
            ScoreEvent::ReadFailed => EventView::ReadFailed,
            ScoreEvent::Written => EventView::Written,
            ScoreEvent::WriteFailed => EventView::WriteFailed,
            ScoreEvent::Parsed(Some(f)) => EventView::Parsed(Some(f.playerinfo.score)),
            ScoreEvent::Parsed(None) => EventView::Parsed(None),
        }
    }
}

/// One step of loading the saved score. A read file is handed to the TOML
/// reading as it is; a missing file is replaced by the record of a zero
/// score, which is then read; a failed write gives 0; text that is no
/// player file gives 0; otherwise the stored score. An event that does not
/// answer the pending request changes nothing.
pub open spec fn load_step(state: ScoreLoad, event: EventView) -> (ScoreLoad, ActionView) {
    match (state, event) {
        (ScoreLoad::Reading, EventView::Read(t)) => (ScoreLoad::Parsing, ActionView::Parse(t)),
        (ScoreLoad::Reading, EventView::ReadFailed) => (
            ScoreLoad::WritingDefault,
            ActionView::WriteDefault(score_record_text(0)),
        ),
        (ScoreLoad::WritingDefault, EventView::Written) => (
            ScoreLoad::Parsing,
            ActionView::Parse(score_record_text(0)),
        ),
        (ScoreLoad::WritingDefault, EventView::WriteFailed) => (
            ScoreLoad::Done(0),
            ActionView::Finish(0, Some(ScoreComplaint::WriteFailed)),
        ),
        (ScoreLoad::Parsing, EventView::Parsed(Some(n))) => (ScoreLoad::Done(n), ActionView::Finish(n, None)),
        (ScoreLoad::Parsing, EventView::Parsed(None)) => (
            ScoreLoad::Done(0),
            ActionView::Finish(0, Some(ScoreComplaint::Unreadable)),
        ),
        (s, _) => (s, ActionView::Wait),
    }
}

/// Where loading stands, and what it asks for, after these reports.
pub open spec fn run_load(events: Seq<EventView>) -> (ScoreLoad, ActionView)
    decreases events.len(),
{
    if events.len() == 0 {
        (ScoreLoad::Reading, ActionView::ReadFile)
    } else {
        load_step(run_load(events.drop_last()).0, events.last())
    }
}

/// The first step of loading the saved score: read the player file.
pub fn score_load_start() -> (res: (ScoreLoad, ScoreAction))
    ensures
        res.0 == run_load(seq![]).0,
        res.1@ == run_load(seq![]).1,
{
    (ScoreLoad::Reading, ScoreAction::ReadFile)
}

/// One step of loading the saved score (see `load_step`).
pub fn score_load_step(state: ScoreLoad, event: ScoreEvent) -> (res: (ScoreLoad, ScoreAction))
    ensures
        res.0 == load_step(state, event@).0,
        res.1@ == load_step(state, event@).1,
{
    match (state, event) {
        (ScoreLoad::Reading, ScoreEvent::Read(text)) => (ScoreLoad::Parsing, ScoreAction::Parse(text)),
        (ScoreLoad::Reading, ScoreEvent::ReadFailed) => (
            ScoreLoad::WritingDefault,
            ScoreAction::WriteDefault(score_record(0)),
        ),
        (ScoreLoad::WritingDefault, ScoreEvent::Written) => (
            ScoreLoad::Parsing,
            ScoreAction::Parse(score_record(0)),
        ),
        (ScoreLoad::WritingDefault, ScoreEvent::WriteFailed) => (
            ScoreLoad::Done(0),
            ScoreAction::Finish(0, Some(ScoreComplaint::WriteFailed)),
        ),
        (ScoreLoad::Parsing, ScoreEvent::Parsed(Some(file))) => {
            let score = file.playerinfo.score;
            (ScoreLoad::Done(score), ScoreAction::Finish(score, None))
        },
        (ScoreLoad::Parsing, ScoreEvent::Parsed(None)) => (
            ScoreLoad::Done(0),
            ScoreAction::Finish(0, Some(ScoreComplaint::Unreadable)),
        ),
        (s, _) => (s, ScoreAction::Wait),
    }
}

/// Reading back a saved score: when the player file holds the record of
/// `n`, loading hands exactly that text to the TOML reading, and when that
/// reading gives the score `n`, loading ends with `n` and no complaint.
/// When the file is missing, the record of 0 is written and handed to the
/// reading, and a reading of 0 ends loading with 0.
pub proof fn lemma_load_reads_back(n: usize)
    ensures
        run_load(seq![EventView::Read(score_record_text(n as nat))])
            == (ScoreLoad::Parsing, ActionView::Parse(score_record_text(n as nat))),
        run_load(seq![EventView::Read(score_record_text(n as nat)), EventView::Parsed(Some(n))])
            == (ScoreLoad::Done(n), ActionView::Finish(n, None)),
        run_load(seq![EventView::ReadFailed])
            == (ScoreLoad::WritingDefault, ActionView::WriteDefault(score_record_text(0))),
        run_load(seq![EventView::ReadFailed, EventView::Written])
            == (ScoreLoad::Parsing, ActionView::Parse(score_record_text(0))),
        run_load(seq![EventView::ReadFailed, EventView::Written, EventView::Parsed(Some(0))])
            == (ScoreLoad::Done(0), ActionView::Finish(0, None)),
{
    reveal_with_fuel(run_load, 4);
    let t = score_record_text(n as nat);
    assert(run_load(Seq::<EventView>::empty()) == (ScoreLoad::Reading, ActionView::ReadFile));
    let one = seq![EventView::Read(t)];
    let two = seq![EventView::Read(t), EventView::Parsed(Some(n))];
    assert(one.drop_last() =~= Seq::<EventView>::empty());
    assert(one.last() == EventView::Read(t));
    assert(run_load(one) == load_step(ScoreLoad::Reading, EventView::Read(t)));
    assert(two.drop_last() =~= one);
    assert(two.last() == EventView::Parsed(Some(n)));
    assert(run_load(two) == load_step(ScoreLoad::Parsing, EventView::Parsed(Some(n))));
    assert(seq![EventView::ReadFailed].drop_last() =~= seq![]);
    assert(seq![EventView::ReadFailed, EventView::Written].drop_last() =~= seq![EventView::ReadFailed]);
    assert(seq![EventView::ReadFailed, EventView::Written, EventView::Parsed(Some(0))].drop_last()
        =~= seq![EventView::ReadFailed, EventView::Written]);
}

/// Adding points twice is adding their sum: when the file holds the record
/// of `s + a` and its reading gives `s + a`, loading ends with `s + a`, and
/// adding `b` to that writes the same record as adding `a + b` to `s`;
/// adding 0 writes the record of the score as it was.
pub proof fn lemma_score_add_composes(s: usize, a: usize, b: usize)
    requires
        s + a + b <= usize::MAX,
    ensures
        run_load(seq![EventView::Read(score_record_text((s + a) as nat)), EventView::Parsed(Some((s + a) as usize))]).0
            == ScoreLoad::Done((s + a) as usize),
        score_record_text(((s + a) + b) as nat) == score_record_text((s + (a + b)) as nat),
        score_record_text((s + 0) as nat) == score_record_text(s as nat),
{
    lemma_load_reads_back((s + a) as usize);
}

} // verus!
