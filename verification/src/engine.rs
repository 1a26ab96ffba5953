//! Moving one item into the trash, step by step.
//!
//! The library decides and the caller acts. A move is in one phase at a time;
//! the phase says what the caller is to do next, and what came of it goes
//! back as an event, from which `move_file_to_trash` gives the next phase. A
//! move ends in `Moved` or in `Failed`.
//!
//! | phase            | the caller                                        | event     |
//! |------------------|---------------------------------------------------|-----------|
//! | `Start`          | does nothing                                      | `Begin`   |
//! | `Resolving`      | looks at the two places of `probe_targets`        | `Probed`  |
//! | `Preparing`      | creates the trash directory, `files/` and `info/` | `Done`    |
//! | `Listing`        | reads the names in `files/` and in `info/`        | `Listed`  |
//! | `Guarding`       | looks whether the two paths of the item exist     | `Checked` |
//! | `Renaming`       | renames the source to the path in `files/`        | `Done`    |
//! | `Copying`        | copies the source there, with modes and times     | `Done`    |
//! | `RemovingSource` | removes the source                                | `Done`    |
//! | `WritingInfo`    | writes `info_content` to the `.trashinfo` file    | `Done`    |
//! | `Discarding`     | removes what lies at the path in `files/`         | `Done`    |
//! | `UpdatingCache`  | brings the size cache up to date                  | `Done`    |

use vstd::prelude::*;
use crate::errors::TrashError;
use crate::lines::views;
use crate::naming::{find_unique_name, unique_name};
use crate::paths::{file_name, file_name_of, parent, parent_of};
use crate::resolver::{
    get_trash_path_for_file, private_trash, private_trash_of, shared_trash, shared_trash_of,
    trash_for, TopdirProbe,
};
use crate::trashinfo::{is_stamp, stored_path, trashinfo_text};

verus! {

/// Where a move stands, which is what the caller is to do next.
#[derive(Debug, Clone, Copy, PartialEq, Eq, Structural)]
pub enum Phase {
    Start,
    Resolving,
    Preparing,
    Listing,
    Guarding,
    Renaming,
    Copying,
    RemovingSource,
    WritingInfo,
    Discarding,
    UpdatingCache,
    Moved,
    Failed,
}

/// The item to move.
#[derive(Debug, Clone, PartialEq, Eq)]
pub struct MoveRequest {
    /// Its path: absolute, with links and relative parts resolved.
    pub source: Vec<u8>,
    /// Whether it is a directory.
    pub is_dir: bool,
    /// The user who moves it.
    pub uid: u32,
    /// The home trash of that user.
    pub home_trash: Vec<u8>,
}

/// A move in progress.
#[derive(Debug, Clone, PartialEq, Eq)]
pub struct MoveState {
    pub phase: Phase,
    /// The trash directory that takes the item, once it is resolved.
    pub trash: Vec<u8>,
    /// The name of the item: its own at first, the one it has in the trash
    /// once that is chosen.
    pub name: Vec<u8>,
    /// The text of the `.trashinfo` file, once it is to be written.
    pub info_content: Vec<u8>,
    /// Why the move failed or is being undone; for a move that ended in
    /// `Moved`, what did not hinder it.
    pub error: Option<TrashError>,
}

/// What came of the caller's last act.
#[derive(Debug, Clone, PartialEq, Eq)]
pub enum MoveEvent {
    /// Nothing yet.
    Begin,
    /// What was found at the two places of the directory that holds the item.
    Probed(TopdirProbe),
    /// The names in `files/` and in `info/`.
    Listed { files: Vec<Vec<u8>>, info: Vec<Vec<u8>> },
    /// Whether the path of the item in `files/` and that of its `.trashinfo`
    /// file exist.
    Checked { content_exists: bool, info_exists: bool },
    /// The act succeeded, or it did not.
    Done(bool),
}

/// What a `MoveRequest` stands for.
pub struct Request {
    pub source: Seq<u8>,
    pub is_dir: bool,
    pub uid: u32,
    pub home_trash: Seq<u8>,
}

/// What a `MoveState` stands for.
pub struct State {
    pub phase: Phase,
    pub trash: Seq<u8>,
    pub name: Seq<u8>,
    pub info_content: Seq<u8>,
    pub error: Option<TrashError>,
}

/// What a `MoveEvent` stands for.
pub enum Event {
    Begin,
    Probed(TopdirProbe),
    Listed { files: Seq<Seq<u8>>, info: Seq<Seq<u8>> },
    Checked { content_exists: bool, info_exists: bool },
    Done(bool),
}

impl View for MoveRequest {
    type V = Request;

    open spec fn view(&self) -> Request {
        Request {
            source: self.source@,
            is_dir: self.is_dir,
            uid: self.uid,
            home_trash: self.home_trash@,
        }
    }
}

impl View for MoveState {
    type V = State;

    open spec fn view(&self) -> State {
        State {
            phase: self.phase,
            trash: self.trash@,
            name: self.name@,
            info_content: self.info_content@,
            error: self.error,
        }
    }
}

impl View for MoveEvent {
    type V = Event;

    open spec fn view(&self) -> Event {
        match self {
            MoveEvent::Begin => Event::Begin,
            MoveEvent::Probed(probe) => Event::Probed(*probe),
            MoveEvent::Listed { files, info } => Event::Listed {
                files: views(files@),
                info: views(info@),
            },
            MoveEvent::Checked { content_exists, info_exists } => Event::Checked {
                content_exists: *content_exists,
                info_exists: *info_exists,
            },
            MoveEvent::Done(ok) => Event::Done(*ok),
        }
    }
}

/// The state before anything was done.
pub open spec fn initial() -> State {
    State {
        phase: Phase::Start,
        trash: Seq::empty(),
        name: Seq::empty(),
        info_content: Seq::empty(),
        error: None,
    }
}

/// `state` in another phase.
pub open spec fn at(state: State, phase: Phase) -> State {
    State { phase, trash: state.trash, name: state.name, info_content: state.info_content, error: state.error }
}

/// `state`, on its way out with `error`.
pub open spec fn with_error(state: State, phase: Phase, error: TrashError) -> State {
    State {
        phase,
        trash: state.trash,
        name: state.name,
        info_content: state.info_content,
        error: Some(error),
    }
}

/// Whether the trash directory of a move is the home trash.
pub open spec fn in_home_trash(request: Request, state: State) -> bool {
    state.trash == request.home_trash
}

/// The text of the `.trashinfo` file of a move that is written at `date`.
pub open spec fn info_text(request: Request, state: State, date: Seq<u8>) -> Seq<u8> {
    trashinfo_text(stored_path(request.source, state.trash, in_home_trash(request, state)), date)
}

/// `state`, about to write its `.trashinfo` file at `date`.
pub open spec fn writing(request: Request, state: State, date: Seq<u8>) -> State {
    State {
        phase: Phase::WritingInfo,
        trash: state.trash,
        name: state.name,
        info_content: info_text(request, state, date),
        error: state.error,
    }
}

/// The state that follows `state` on `event`, where `date` is the time at
/// which the text of the `.trashinfo` file is made. An event that does not
/// answer the phase changes nothing.
pub open spec fn transition(request: Request, state: State, event: Event, date: Seq<u8>) -> State {
    match (state.phase, event) {
        (Phase::Start, Event::Begin) => match (
            file_name_of(request.source),
            parent_of(request.source),
        ) {
            (Some(name), Some(_)) => State {
                phase: Phase::Resolving,
                trash: state.trash,
                name,
                info_content: state.info_content,
                error: state.error,
            },
            _ => with_error(state, Phase::Failed, TrashError::PathResolutionError),
        },
        (Phase::Resolving, Event::Probed(probe)) => match trash_for(
            request.source,
            request.uid,
            request.home_trash,
            probe,
        ) {
            Some(trash) => State {
                phase: Phase::Preparing,
                trash,
                name: state.name,
                info_content: state.info_content,
                error: state.error,
            },
            None => with_error(state, Phase::Failed, TrashError::PathResolutionError),
        },
        (Phase::Preparing, Event::Done(ok)) => if ok {
            at(state, Phase::Listing)
        } else {
            with_error(state, Phase::Failed, TrashError::MoveFailed)
        },
        (Phase::Listing, Event::Listed { files, info }) => State {
            phase: Phase::Guarding,
            trash: state.trash,
            name: unique_name(files, info, state.name),
            info_content: state.info_content,
            error: state.error,
        },
        (Phase::Guarding, Event::Checked { content_exists, info_exists }) => if content_exists
            || info_exists {
            with_error(state, Phase::Failed, TrashError::TrashCollision)
        } else {
            at(state, Phase::Renaming)
        },
        (Phase::Renaming, Event::Done(ok)) => if ok {
            writing(request, state, date)
        } else {
            at(state, Phase::Copying)
        },
        (Phase::Copying, Event::Done(ok)) => if ok {
            at(state, Phase::RemovingSource)
        } else {
            with_error(state, Phase::Discarding, TrashError::MoveFailed)
        },
        (Phase::RemovingSource, Event::Done(ok)) => if ok {
            writing(request, state, date)
        } else {
            with_error(state, Phase::Discarding, TrashError::MoveFailed)
        },
        (Phase::WritingInfo, Event::Done(ok)) => if !ok {
            with_error(state, Phase::Discarding, TrashError::MetadataWriteFailed)
        } else if request.is_dir {
            at(state, Phase::UpdatingCache)
        } else {
            at(state, Phase::Moved)
        },
        (Phase::Discarding, Event::Done(_)) => at(state, Phase::Failed),
        (Phase::UpdatingCache, Event::Done(ok)) => if ok {
            at(state, Phase::Moved)
        } else {
            with_error(state, Phase::Moved, TrashError::CacheUpdateFailed)
        },
        _ => state,
    }
}

impl MoveState {
    /// The state before anything was done.
    pub fn new() -> (state: MoveState)
        ensures
            state@ == initial(),
    {
        MoveState {
            phase: Phase::Start,
            trash: Vec::new(),
            name: Vec::new(),
            info_content: Vec::new(),
            error: None,
        }
    }

    /// Whether the move has ended.
    pub fn is_over(&self) -> (over: bool)
        ensures
            over == (self.phase == Phase::Moved || self.phase == Phase::Failed),
    {
        match self.phase {
            Phase::Moved => true,
            Phase::Failed => true,
            _ => false,
        }
    }

    /// How the move ended: well, or with the error that ended it. For a move
    /// that has not ended there is no answer yet.
    pub fn outcome(&self) -> (out: Option<Result<(), TrashError>>)
        ensures
            out == match (self.phase, self.error) {
                (Phase::Moved, _) => Some(Ok::<(), TrashError>(())),
                (Phase::Failed, Some(error)) => Some(Err::<(), TrashError>(error)),
                (Phase::Failed, None) => Some(Err::<(), TrashError>(TrashError::MoveFailed)),
                _ => None,
            },
    {
        match self.phase {
            Phase::Moved => Some(Ok(())),
            Phase::Failed => match self.error {
                Some(error) => Some(Err(error)),
                None => Some(Err(TrashError::MoveFailed)),
            },
            _ => None,
        }
    }
}

/// The two places at which the trash directory of the file system of an item
/// may lie, the shared one first; none for a path without a directory above
/// it.
pub fn probe_targets(request: &MoveRequest) -> (out: Option<(Vec<u8>, Vec<u8>)>)
    ensures
        match out {
            Some((shared, private)) => parent_of(request@.source) is Some && shared@
                == shared_trash_of(parent_of(request@.source)->0, request.uid) && private@
                == private_trash_of(parent_of(request@.source)->0, request.uid),
            None => parent_of(request@.source) is None,
        },
{
    match parent(request.source.as_slice()) {
        Some(topdir) => Some(
            (
                shared_trash(topdir.as_slice(), request.uid),
                private_trash(topdir.as_slice(), request.uid),
            ),
        ),
        None => None,
    }
}

/// `state` in another phase.
fn enter(state: MoveState, phase: Phase) -> (next: MoveState)
    ensures
        next@ == at(state@, phase),
{
    MoveState {
        phase,
        trash: state.trash,
        name: state.name,
        info_content: state.info_content,
        error: state.error,
    }
}

/// `state`, on its way out with `error`.
fn leave(state: MoveState, phase: Phase, error: TrashError) -> (next: MoveState)
    ensures
        next@ == with_error(state@, phase, error),
{
    MoveState {
        phase,
        trash: state.trash,
        name: state.name,
        info_content: state.info_content,
        error: Some(error),
    }
}

/// `state`, about to write its `.trashinfo` file, whose text is made now.
fn write(request: &MoveRequest, state: MoveState) -> (next: MoveState)
    ensures
        exists|date: Seq<u8>| is_stamp(date) && next@ == #[trigger] writing(request@, state@, date),
{
    let info_path = crate::layout::info_path(state.trash.as_slice(), state.name.as_slice());
    let planned = crate::trashinfo::create_atomic_trashinfo(
        info_path.as_slice(),
        request.source.as_slice(),
        state.trash.as_slice(),
        request.home_trash.as_slice(),
    );
    let ghost date = choose|date: Seq<u8>|
        #[trigger] is_stamp(date) && planned.content@ == trashinfo_text(
            stored_path(request@.source, state@.trash, state@.trash == request@.home_trash),
            date,
        );
    let next = MoveState {
        phase: Phase::WritingInfo,
        trash: state.trash,
        name: state.name,
        info_content: planned.content,
        error: state.error,
    };
    assert(next@ == writing(request@, state@, date));
    next
}

/// The next state of a move: `state`, after `event` told what came of the act
/// that its phase asked for. Only the text of the `.trashinfo` file depends
/// on more than the arguments: it bears the time at which it is made.
pub fn move_file_to_trash(request: &MoveRequest, state: MoveState, event: MoveEvent) -> (next:
    MoveState)
    ensures
        exists|date: Seq<u8>|
            is_stamp(date) && next@ == #[trigger] transition(request@, state@, event@, date),
{
    let ghost any = crate::trashinfo::sample_stamp();
    proof {
        crate::trashinfo::lemma_sample_stamp();
    }
    match state.phase {
        Phase::Start => match event {
            MoveEvent::Begin => {
                let name = file_name(request.source.as_slice());
                let above = parent(request.source.as_slice());
                let next = match (name, above) {
                    (Some(name), Some(_)) => MoveState {
                        phase: Phase::Resolving,
                        trash: state.trash,
                        name,
                        info_content: state.info_content,
                        error: state.error,
                    },
                    _ => leave(state, Phase::Failed, TrashError::PathResolutionError),
                };
                assert(next@ == transition(request@, state@, event@, any));
                next
            },
            _ => {
                assert(state@ == transition(request@, state@, event@, any));
                state
            },
        },
        Phase::Resolving => match event {
            MoveEvent::Probed(probe) => {
                let next = match get_trash_path_for_file(
                    request.source.as_slice(),
                    request.uid,
                    request.home_trash.as_slice(),
                    &probe,
                ) {
                    Some(trash) => MoveState {
                        phase: Phase::Preparing,
                        trash,
                        name: state.name,
                        info_content: state.info_content,
                        error: state.error,
                    },
                    None => leave(state, Phase::Failed, TrashError::PathResolutionError),
                };
                assert(next@ == transition(request@, state@, event@, any));
                next
            },
            _ => {
                assert(state@ == transition(request@, state@, event@, any));
                state
            },
        },
        Phase::Preparing => match event {
            MoveEvent::Done(ok) => {
                let next = if ok {
                    enter(state, Phase::Listing)
                } else {
                    leave(state, Phase::Failed, TrashError::MoveFailed)
                };
                assert(next@ == transition(request@, state@, event@, any));
                next
            },
            _ => {
                assert(state@ == transition(request@, state@, event@, any));
                state
            },
        },
        Phase::Listing => match event {
            MoveEvent::Listed { files, info } => {
                let ghost listed = Event::Listed { files: views(files@), info: views(info@) };
                let name = find_unique_name(&files, &info, state.name.as_slice());
                let next = MoveState {
                    phase: Phase::Guarding,
                    trash: state.trash,
                    name,
                    info_content: state.info_content,
                    error: state.error,
                };
                assert(next@ == transition(request@, state@, listed, any));
                next
            },
            _ => {
                assert(state@ == transition(request@, state@, event@, any));
                state
            },
        },
        Phase::Guarding => match event {
            MoveEvent::Checked { content_exists, info_exists } => {
                let next = if content_exists || info_exists {
                    leave(state, Phase::Failed, TrashError::TrashCollision)
                } else {
                    enter(state, Phase::Renaming)
                };
                assert(next@ == transition(
                    request@,
                    state@,
                    Event::Checked { content_exists, info_exists },
                    any,
                ));
                next
            },
            _ => {
                assert(state@ == transition(request@, state@, event@, any));
                state
            },
        },
        Phase::Renaming => match event {
            MoveEvent::Done(ok) => {
                if ok {
                    let next = write(request, state);
                    let ghost date = choose|date: Seq<u8>|
                        is_stamp(date) && next@ == #[trigger] writing(request@, state@, date);
                    assert(next@ == transition(request@, state@, event@, date));
                    next
                } else {
                    let next = enter(state, Phase::Copying);
                    assert(next@ == transition(request@, state@, event@, any));
                    next
                }
            },
            _ => {
                assert(state@ == transition(request@, state@, event@, any));
                state
            },
        },
        Phase::Copying => match event {
            MoveEvent::Done(ok) => {
                let next = if ok {
                    enter(state, Phase::RemovingSource)
                } else {
                    leave(state, Phase::Discarding, TrashError::MoveFailed)
                };
                assert(next@ == transition(request@, state@, event@, any));
                next
            },
            _ => {
                assert(state@ == transition(request@, state@, event@, any));
                state
            },
        },
        Phase::RemovingSource => match event {
            MoveEvent::Done(ok) => {
                if ok {
                    let next = write(request, state);
                    let ghost date = choose|date: Seq<u8>|
                        is_stamp(date) && next@ == #[trigger] writing(request@, state@, date);
                    assert(next@ == transition(request@, state@, event@, date));
                    next
                } else {
                    let next = leave(state, Phase::Discarding, TrashError::MoveFailed);
                    assert(next@ == transition(request@, state@, event@, any));
                    next
                }
            },
            _ => {
                assert(state@ == transition(request@, state@, event@, any));
                state
            },
        },
        Phase::WritingInfo => match event {
            MoveEvent::Done(ok) => {
                let next = if !ok {
                    leave(state, Phase::Discarding, TrashError::MetadataWriteFailed)
                } else if request.is_dir {
                    enter(state, Phase::UpdatingCache)
                } else {
                    enter(state, Phase::Moved)
                };
                assert(next@ == transition(request@, state@, event@, any));
                next
            },
            _ => {
                assert(state@ == transition(request@, state@, event@, any));
                state
            },
        },
        Phase::Discarding => match event {
            MoveEvent::Done(_) => {
                let next = enter(state, Phase::Failed);
                assert(next@ == transition(request@, state@, event@, any));
                next
            },
            _ => {
                assert(state@ == transition(request@, state@, event@, any));
                state
            },
        },
        Phase::UpdatingCache => match event {
            MoveEvent::Done(ok) => {
                let next = if ok {
                    enter(state, Phase::Moved)
                } else {
                    leave(state, Phase::Moved, TrashError::CacheUpdateFailed)
                };
                assert(next@ == transition(request@, state@, event@, any));
                next
            },
            _ => {
                assert(state@ == transition(request@, state@, event@, any));
                state
            },
        },
        Phase::Moved => {
            assert(state@ == transition(request@, state@, event@, any));
            state
        },
        Phase::Failed => {
            assert(state@ == transition(request@, state@, event@, any));
            state
        },
    }
}

/// Whether something of the item may lie in `files/` while its `.trashinfo`
/// file is not yet in `info/`.
pub open spec fn holds_content(phase: Phase) -> bool {
    phase == Phase::Copying || phase == Phase::RemovingSource || phase == Phase::WritingInfo
        || phase == Phase::Discarding
}

/// A move leaves no item in the trash without its `.trashinfo` file. When the
/// file cannot be written, the move goes on to discard the item that it just
/// brought in, under the very name and in the very trash directory, and then
/// fails; it cannot end in `Moved`. More generally, a move fails for good
/// only from a phase in which nothing of the item is in the trash, or after
/// it has discarded what was; and it ends in `Moved` only after the
/// `.trashinfo` file was written.
pub proof fn lemma_no_orphan(request: Request, state: State, event: Event, date: Seq<u8>)
    ensures
        state.phase == Phase::WritingInfo && event == Event::Done(false) ==> transition(
            request,
            state,
            event,
            date,
        ) == with_error(state, Phase::Discarding, TrashError::MetadataWriteFailed),
        state.phase == Phase::Discarding ==> transition(request, state, event, date).phase
            != Phase::Moved && transition(request, state, event, date).error == state.error
            && transition(request, state, event, date).phase != Phase::WritingInfo,
        holds_content(state.phase) && transition(request, state, event, date).phase
            == Phase::Failed ==> state.phase == Phase::Discarding,
        holds_content(state.phase) ==> transition(request, state, event, date).trash == state.trash
            && transition(request, state, event, date).name == state.name,
        transition(request, state, event, date).phase == Phase::Moved && state.phase
            != Phase::Moved ==> (state.phase == Phase::WritingInfo && event == Event::Done(true))
            || state.phase == Phase::UpdatingCache,
        transition(request, state, event, date).phase == Phase::UpdatingCache && state.phase
            != Phase::UpdatingCache ==> state.phase == Phase::WritingInfo && event == Event::Done(
            true,
        ) && request.is_dir,
{
}

/// What a move has put into the trash so far.
pub struct Holdings {
    /// Something of the item lies in `files/`, be it all of it or a part.
    pub content: bool,
    /// The `.trashinfo` file of the item lies in `info/`.
    pub info: bool,
}

/// What a move has put into the trash after the caller did what `phase`
/// asked for and told of it with `event`. A copy that failed may have left a
/// part of the item behind.
pub open spec fn performed(phase: Phase, event: Event, before: Holdings) -> Holdings {
    match (phase, event) {
        (Phase::Renaming, Event::Done(ok)) => Holdings { content: ok, info: before.info },
        (Phase::Copying, Event::Done(_)) => Holdings { content: true, info: before.info },
        (Phase::WritingInfo, Event::Done(ok)) => Holdings { content: before.content, info: ok },
        (Phase::Discarding, Event::Done(ok)) => Holdings {
            content: before.content && !ok,
            info: before.info,
        },
        _ => before,
    }
}

/// What a move in `phase` has put into the trash, if all went by the rules:
/// nothing before it renames or copies, the item alone while the
/// `.trashinfo` file is being written, both once it is written, and nothing
/// again once it has failed.
pub open spec fn keeps_pairs(phase: Phase, held: Holdings) -> bool {
    match phase {
        Phase::RemovingSource | Phase::WritingInfo => held.content && !held.info,
        Phase::Discarding => !held.info,
        Phase::UpdatingCache | Phase::Moved => held.content && held.info,
        _ => !held.content && !held.info,
    }
}

/// An item and its `.trashinfo` file are in the trash together or not at
/// all. A move starts with nothing in the trash; and whatever the caller
/// tells, each step keeps `keeps_pairs`, as long as no removal fails that the
/// move asks for to undo itself. So a move that is over has put in both, where
/// it ended in `Moved`, and has left nothing, where it ended in `Failed`.
pub proof fn lemma_keeps_pairs(
    request: Request,
    state: State,
    event: Event,
    date: Seq<u8>,
    held: Holdings,
)
    requires
        keeps_pairs(state.phase, held),
        !(state.phase == Phase::Discarding && event == Event::Done(false)),
    ensures
        keeps_pairs(initial().phase, Holdings { content: false, info: false }),
        keeps_pairs(
            transition(request, state, event, date).phase,
            performed(state.phase, event, held),
        ),
{
}

/// Whether the name of a move can be the name of an entry: once it is
/// resolved, and unless the move failed, it holds no path separator.
pub open spec fn has_plain_name(state: State) -> bool {
    state.phase == Phase::Start || state.phase == Phase::Failed || !state.name.contains(
        crate::bytes::SLASH,
    )
}

/// The name of a move stays the name of an entry, whatever happens.
pub proof fn lemma_name_stays_plain(request: Request, state: State, event: Event, date: Seq<u8>)
    requires
        has_plain_name(state),
    ensures
        has_plain_name(transition(request, state, event, date)),
{
    crate::paths::lemma_file_name_is_a_name(request.source);
    match (state.phase, event) {
        (Phase::Listing, Event::Listed { files, info }) => {
            crate::naming::lemma_candidate_is_a_name(
                state.name,
                crate::naming::first_free(files, info, state.name),
            );
        },
        _ => {},
    }
}

/// What a move writes, a listing reads. The item of a move that wrote its
/// `.trashinfo` file at `date` is listed under the name that it got, at its
/// place in `files/`, with the path that it came from and with that date.
pub proof fn lemma_moved_item_is_listed(request: Request, state: State, date: Seq<u8>)
    requires
        crate::paths::is_absolute(request.source),
        has_plain_name(state),
        state.phase != Phase::Start,
        state.phase != Phase::Failed,
        is_stamp(date),
    ensures
        crate::listing::entry_of(
            crate::layout::files_dir_of(state.trash),
            crate::layout::info_path_of(state.trash, state.name),
            state.trash,
            true,
            Some(info_text(request, state, date)),
        ) == Some(
            crate::listing::Entry {
                name: state.name,
                path: crate::layout::content_path_of(state.trash, state.name),
                info_path: crate::layout::info_path_of(state.trash, state.name),
                original_path: request.source,
                deletion_date: date,
            },
        ),
{
    crate::listing::lemma_entry_of_item(state.trash, state.name, info_text(request, state, date));
    crate::trashinfo::lemma_decode_encode_stamped(
        request.source,
        state.trash,
        in_home_trash(request, state),
        date,
    );
}

/// A move that has ended stays as it is.
pub proof fn lemma_over_is_over(request: Request, state: State, event: Event, date: Seq<u8>)
    requires
        state.phase == Phase::Moved || state.phase == Phase::Failed,
    ensures
        transition(request, state, event, date) == state,
{
}

} // verus!
