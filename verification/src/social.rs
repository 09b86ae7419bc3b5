//! Likes and comments. Toggling a like and adding a comment are each a
//! short conversation with the database; the decisions of that
//! conversation are the state machines here, and the caller runs the
//! statements and reports how they went.
use vstd::prelude::*;
use vstd::string::*;
use crate::lettering::DomainError;
use crate::text::str_eq;

verus! {

// ---------------------------------------------------------------------
// Toggling a like
// ---------------------------------------------------------------------

/// Where a like toggle stands.
#[derive(Debug, Clone, Copy, PartialEq, Eq, Structural)]
pub enum LikeStage {
    /// Waiting for the transaction to open.
    Beginning,
    /// Waiting to learn whether this address already likes the lettering.
    Checking,
    /// Waiting for the like to be deleted.
    Removing,
    /// Waiting for the likes count to be lowered.
    Decrementing,
    /// Waiting for the like to be inserted.
    Inserting,
    /// Waiting for the likes count to be raised.
    Incrementing,
    /// Waiting for the new likes count.
    Reading,
    /// Waiting for the transaction to commit.
    Committing,
    /// Nothing more to do.
    Finished,
}

/// What the caller reports back while toggling a like.
#[derive(Debug, Clone)]
pub enum LikeEvent {
    /// The transaction is open.
    Begun,
    /// Whether a like by this address existed.
    LikeExists(bool),
    /// The last statement ran.
    Executed,
    /// The likes count read back.
    CountRead(i32),
    /// The transaction committed.
    Committed,
    /// The database refused the last request with this error text.
    DatabaseFailed { error: String },
}

/// What the caller does next while toggling a like.
#[derive(Debug, Clone)]
pub enum LikeAction {
    /// Open a transaction.
    Begin,
    /// Ask whether this address likes the lettering.
    CheckLike,
    /// Delete this address's like.
    DeleteLike,
    /// Lower the lettering's likes count by one, not below zero.
    DecrementLikes,
    /// Insert a like by this address.
    InsertLike,
    /// Raise the lettering's likes count by one.
    IncrementLikes,
    /// Read the lettering's likes count.
    ReadLikes,
    /// Commit the transaction.
    Commit,
    /// The toggle failed with this error.
    Fail(DomainError),
    /// Done: whether the address now likes the lettering, and the count.
    Succeed { liked: bool, likes_count: i32 },
}

/// A like toggle in progress.
pub struct LikeToggle {
    stage: LikeStage,
    existed: bool,
    likes_count: i32,
}

/// What the caller sees of a like toggle.
pub struct LikeState {
    pub stage: LikeStage,
    /// Whether a like existed when the toggle began.
    pub existed: bool,
    /// The likes count read back, once it has been.
    pub likes_count: i32,
}

impl View for LikeToggle {
    type V = LikeState;

    closed spec fn view(&self) -> LikeState {
        LikeState { stage: self.stage, existed: self.existed, likes_count: self.likes_count }
    }
}

/// The event is one the stage waits for.
pub open spec fn like_expects(stage: LikeStage, event: LikeEvent) -> bool {
    match stage {
        LikeStage::Finished => false,
        _ => match event {
            LikeEvent::DatabaseFailed { .. } => true,
            LikeEvent::Begun => stage == LikeStage::Beginning,
            LikeEvent::LikeExists(_) => stage == LikeStage::Checking,
            LikeEvent::Executed => stage == LikeStage::Removing || stage == LikeStage::Decrementing
                || stage == LikeStage::Inserting || stage == LikeStage::Incrementing,
            LikeEvent::CountRead(_) => stage == LikeStage::Reading,
            LikeEvent::Committed => stage == LikeStage::Committing,
        },
    }
}

/// `a` fails with an infrastructure error carrying `error`.
pub open spec fn fails_in_database(a: LikeAction, error: Seq<char>) -> bool {
    a matches LikeAction::Fail(DomainError::InfrastructureError(m)) && m@ == error
}

/// One step of a like toggle: from `s`, on `event`, to `t` with action `a`.
/// A like that existed is deleted and the count lowered; otherwise a like
/// is inserted and the count raised. The count is then read back, and the
/// toggle reports the address as liking the lettering exactly when no like
/// existed before.
pub open spec fn like_transition(s: LikeState, event: LikeEvent, t: LikeState, a: LikeAction) -> bool {
    match event {
        LikeEvent::DatabaseFailed { error } => t.stage == LikeStage::Finished && fails_in_database(
            a,
            error@,
        ),
        LikeEvent::Begun => t.stage == LikeStage::Checking && a is CheckLike,
        LikeEvent::LikeExists(exists) => t.existed == exists && if exists {
            t.stage == LikeStage::Removing && a is DeleteLike
        } else {
            t.stage == LikeStage::Inserting && a is InsertLike
        },
        LikeEvent::Executed => t.existed == s.existed && match s.stage {
            LikeStage::Removing => t.stage == LikeStage::Decrementing && a is DecrementLikes,
            LikeStage::Inserting => t.stage == LikeStage::Incrementing && a is IncrementLikes,
            _ => t.stage == LikeStage::Reading && a is ReadLikes,
        },
        LikeEvent::CountRead(n) => t.stage == LikeStage::Committing && t.existed == s.existed
            && t.likes_count == n && a is Commit,
        LikeEvent::Committed => t.stage == LikeStage::Finished && a == (LikeAction::Succeed {
            liked: !s.existed,
            likes_count: s.likes_count,
        }),
    }
}

impl LikeToggle {
    /// Starts a toggle. `address_error` is the parser's complaint about the
    /// client address, if it has one; such an address is refused as a
    /// validation error before the database is touched.
    pub fn start(address_error: Option<String>) -> (r: (LikeToggle, LikeAction))
        ensures
            match address_error {
                Some(e) => r.0@.stage == LikeStage::Finished && (r.1 matches LikeAction::Fail(
                    DomainError::ValidationError(m),
                ) && m@ == e@),
                None => r.0@.stage == LikeStage::Beginning && r.1 is Begin,
            },
    {
        match address_error {
            Some(e) => (
                LikeToggle { stage: LikeStage::Finished, existed: false, likes_count: 0 },
                LikeAction::Fail(DomainError::ValidationError(e)),
            ),
            None => (
                LikeToggle { stage: LikeStage::Beginning, existed: false, likes_count: 0 },
                LikeAction::Begin,
            ),
        }
    }

    /// Where the toggle stands.
    pub fn stage(&self) -> (r: LikeStage)
        ensures
            r == self@.stage,
    {
        self.stage
    }

    /// Whether the toggle waits for `event`.
    pub fn accepts(&self, event: &LikeEvent) -> (r: bool)
        ensures
            r == like_expects(self@.stage, *event),
    {
        if self.stage == LikeStage::Finished {
            return false;
        }
        match event {
            LikeEvent::DatabaseFailed { .. } => true,
            LikeEvent::Begun => self.stage == LikeStage::Beginning,
            LikeEvent::LikeExists(_) => self.stage == LikeStage::Checking,
            LikeEvent::Executed => self.stage == LikeStage::Removing || self.stage
                == LikeStage::Decrementing || self.stage == LikeStage::Inserting || self.stage
                == LikeStage::Incrementing,
            LikeEvent::CountRead(_) => self.stage == LikeStage::Reading,
            LikeEvent::Committed => self.stage == LikeStage::Committing,
        }
    }

    /// Takes the outcome of the last action and says what to do next.
    pub fn step(&mut self, event: LikeEvent) -> (a: LikeAction)
        requires
            like_expects(old(self)@.stage, event),
        ensures
            like_transition(old(self)@, event, final(self)@, a),
    {
        match event {
            LikeEvent::DatabaseFailed { error } => {
                self.stage = LikeStage::Finished;
                LikeAction::Fail(DomainError::InfrastructureError(error))
            },
            LikeEvent::Begun => {
                self.stage = LikeStage::Checking;
                LikeAction::CheckLike
            },
            LikeEvent::LikeExists(exists) => {
                self.existed = exists;
                if exists {
                    self.stage = LikeStage::Removing;
                    LikeAction::DeleteLike
                } else {
                    self.stage = LikeStage::Inserting;
                    LikeAction::InsertLike
                }
            },
            LikeEvent::Executed => {
                if self.stage == LikeStage::Removing {
                    self.stage = LikeStage::Decrementing;
                    LikeAction::DecrementLikes
                } else if self.stage == LikeStage::Inserting {
                    self.stage = LikeStage::Incrementing;
                    LikeAction::IncrementLikes
                } else {
                    self.stage = LikeStage::Reading;
                    LikeAction::ReadLikes
                }
            },
            LikeEvent::CountRead(n) => {
                self.likes_count = n;
                self.stage = LikeStage::Committing;
                LikeAction::Commit
            },
            LikeEvent::Committed => {
                self.stage = LikeStage::Finished;
                LikeAction::Succeed { liked: !self.existed, likes_count: self.likes_count }
            },
        }
    }
}

/// A toggle that runs to the end without a database error deletes an
/// existing like and lowers the count, or inserts a like and raises the
/// count, and then answers that the address likes the lettering exactly
/// when no like existed, with the count it read back.
pub proof fn lemma_toggle_run(
    s0: LikeState, s1: LikeState, s2: LikeState, s3: LikeState, s4: LikeState, s5: LikeState,
    s6: LikeState, a1: LikeAction, a2: LikeAction, a3: LikeAction, a4: LikeAction, a5: LikeAction,
    a6: LikeAction, existed: bool, count: i32,
)
    requires
        s0.stage == LikeStage::Beginning,
        like_transition(s0, LikeEvent::Begun, s1, a1),
        like_transition(s1, LikeEvent::LikeExists(existed), s2, a2),
        like_transition(s2, LikeEvent::Executed, s3, a3),
        like_transition(s3, LikeEvent::Executed, s4, a4),
        like_transition(s4, LikeEvent::CountRead(count), s5, a5),
        like_transition(s5, LikeEvent::Committed, s6, a6),
    ensures
        a1 is CheckLike,
        existed ==> a2 is DeleteLike && a3 is DecrementLikes,
        !existed ==> a2 is InsertLike && a3 is IncrementLikes,
        a4 is ReadLikes,
        a5 is Commit,
        a6 == (LikeAction::Succeed { liked: !existed, likes_count: count }),
        s6.stage == LikeStage::Finished,
{
}

/// One address's like of one lettering as the database holds it: whether
/// the like row exists, and the lettering's likes count.
pub struct LikeRow {
    pub liked: bool,
    pub likes_count: int,
}

/// What the database does for a toggle's action and what it answers, as
/// the statements behind the actions read: the existence query answers
/// whether the row exists, deleting and inserting remove and add it, the
/// count is lowered by one but not below zero or raised by one, and
/// reading gives the count.
pub open spec fn db_answer(d: LikeRow, a: LikeAction) -> (LikeRow, LikeEvent) {
    match a {
        LikeAction::CheckLike => (d, LikeEvent::LikeExists(d.liked)),
        LikeAction::DeleteLike => (LikeRow { liked: false, likes_count: d.likes_count }, LikeEvent::Executed),
        LikeAction::DecrementLikes => (
            LikeRow { liked: d.liked, likes_count: if d.likes_count > 0 { d.likes_count - 1 } else { 0 } },
            LikeEvent::Executed,
        ),
        LikeAction::InsertLike => (LikeRow { liked: true, likes_count: d.likes_count }, LikeEvent::Executed),
        LikeAction::IncrementLikes => (
            LikeRow { liked: d.liked, likes_count: d.likes_count + 1 },
            LikeEvent::Executed,
        ),
        LikeAction::ReadLikes => (d, LikeEvent::CountRead(d.likes_count as i32)),
        LikeAction::Commit => (d, LikeEvent::Committed),
        _ => (d, LikeEvent::Begun),
    }
}

/// Step `i` of a toggle run: the database handles action `i`, and the
/// toggle takes its answer to state and action `i + 1`.
pub open spec fn run_step(rows: Seq<LikeRow>, states: Seq<LikeState>, actions: Seq<LikeAction>, i: int) -> bool {
    &&& rows[i + 1] == db_answer(rows[i], actions[i]).0
    &&& like_transition(states[i], db_answer(rows[i], actions[i]).1, states[i + 1], actions[i + 1])
}

/// A whole toggle run without a database error: seven actions from
/// `Begin` to the answer, with the database's rows before each action.
pub open spec fn toggle_run(rows: Seq<LikeRow>, states: Seq<LikeState>, actions: Seq<LikeAction>) -> bool {
    &&& rows.len() == 7
    &&& states.len() == 7
    &&& actions.len() == 7
    &&& states[0].stage == LikeStage::Beginning
    &&& actions[0] is Begin
    &&& forall|i: int| 0 <= i < 6 ==> #[trigger] run_step(rows, states, actions, i)
}

proof fn lemma_run_steps(rows: Seq<LikeRow>, states: Seq<LikeState>, actions: Seq<LikeAction>)
    requires
        toggle_run(rows, states, actions),
    ensures
        run_step(rows, states, actions, 0),
        run_step(rows, states, actions, 1),
        run_step(rows, states, actions, 2),
        run_step(rows, states, actions, 3),
        run_step(rows, states, actions, 4),
        run_step(rows, states, actions, 5),
{
}

/// Toggling twice gives the like back: from no like and a count `c`, the
/// first toggle likes and answers `c + 1`, the second takes the like back
/// and answers `c`, and the row is as it was. From a like and a count of at
/// least one, the first takes it back and the second likes again, and the
/// row is as it was.
pub proof fn lemma_toggle_twice_restores(
    rows1: Seq<LikeRow>, states1: Seq<LikeState>, actions1: Seq<LikeAction>,
    rows2: Seq<LikeRow>, states2: Seq<LikeState>, actions2: Seq<LikeAction>,
)
    requires
        toggle_run(rows1, states1, actions1),
        toggle_run(rows2, states2, actions2),
        rows2[0] == rows1[6],
        0 <= rows1[0].likes_count < i32::MAX,
        rows1[0].liked ==> rows1[0].likes_count >= 1,
    ensures
        !rows1[0].liked ==> actions1[6] == (LikeAction::Succeed {
            liked: true,
            likes_count: (rows1[0].likes_count + 1) as i32,
        }) && actions2[6] == (LikeAction::Succeed {
            liked: false,
            likes_count: rows1[0].likes_count as i32,
        }),
        rows1[0].liked ==> actions1[6] == (LikeAction::Succeed {
            liked: false,
            likes_count: (rows1[0].likes_count - 1) as i32,
        }) && actions2[6] == (LikeAction::Succeed {
            liked: true,
            likes_count: rows1[0].likes_count as i32,
        }),
        rows2[6] == rows1[0],
{
    lemma_run_steps(rows1, states1, actions1);
    lemma_run_steps(rows2, states2, actions2);
}

// ---------------------------------------------------------------------
// Adding a comment
// ---------------------------------------------------------------------

/// The status under which a comment is shown and counted.
pub open spec fn visible_status() -> Seq<char> {
    "VISIBLE"@
}

/// Where the adding of a comment stands.
#[derive(Debug, Clone, Copy, PartialEq, Eq, Structural)]
pub enum CommentStage {
    /// Waiting for the comment to be inserted.
    Inserting,
    /// Waiting for the lettering's comments count to be raised.
    Counting,
    /// Waiting for the stored comment to be read back.
    Fetching,
    /// Nothing more to do.
    Finished,
}

/// What the caller reports back while adding a comment.
#[derive(Debug, Clone)]
pub enum CommentEvent {
    /// The last statement ran.
    Executed,
    /// The stored comment was read back.
    Fetched,
    /// The database refused the last request with this error text.
    DatabaseFailed { error: String },
}

/// What the caller does next while adding a comment.
#[derive(Debug, Clone)]
pub enum CommentAction {
    /// Insert the comment with its moderation outcome.
    InsertComment,
    /// Raise the lettering's comments count by one.
    IncrementComments,
    /// Read the stored comment back.
    FetchComment,
    /// Adding failed with this error.
    Fail(DomainError),
    /// Done: the comment read back is the result.
    Succeed,
}

/// The adding of a comment in progress.
pub struct CommentAddition {
    stage: CommentStage,
    visible: bool,
}

/// What the caller sees of the adding of a comment.
pub struct CommentState {
    pub stage: CommentStage,
    /// Whether the comment is stored as visible.
    pub visible: bool,
}

impl View for CommentAddition {
    type V = CommentState;

    closed spec fn view(&self) -> CommentState {
        CommentState { stage: self.stage, visible: self.visible }
    }
}

/// The event is one the stage waits for.
pub open spec fn comment_expects(stage: CommentStage, event: CommentEvent) -> bool {
    match event {
        CommentEvent::DatabaseFailed { .. } => stage != CommentStage::Finished,
        CommentEvent::Executed => stage == CommentStage::Inserting || stage == CommentStage::Counting,
        CommentEvent::Fetched => stage == CommentStage::Fetching,
    }
}

/// One step of adding a comment: from `s`, on `event`, to `t` with action
/// `a`. Only a comment stored as visible raises the lettering's comments
/// count; a hidden or flagged one goes straight to being read back.
pub open spec fn comment_transition(s: CommentState, event: CommentEvent, t: CommentState, a: CommentAction) -> bool {
    &&& t.visible == s.visible
    &&& match event {
        CommentEvent::DatabaseFailed { error } => t.stage == CommentStage::Finished
            && (a matches CommentAction::Fail(DomainError::InfrastructureError(m)) && m@ == error@),
        CommentEvent::Executed => if s.stage == CommentStage::Inserting && s.visible {
            t.stage == CommentStage::Counting && a is IncrementComments
        } else {
            t.stage == CommentStage::Fetching && a is FetchComment
        },
        CommentEvent::Fetched => t.stage == CommentStage::Finished && a is Succeed,
    }
}

impl CommentAddition {
    /// Starts adding a comment whose moderation gave it `status`: the
    /// comment is inserted first.
    pub fn start(status: &str) -> (r: (CommentAddition, CommentAction))
        ensures
            r.0@.stage == CommentStage::Inserting,
            r.0@.visible == (status@ == visible_status()),
            r.1 is InsertComment,
    {
        let visible = str_eq(status, "VISIBLE");
        (CommentAddition { stage: CommentStage::Inserting, visible }, CommentAction::InsertComment)
    }

    /// Where the adding stands.
    pub fn stage(&self) -> (r: CommentStage)
        ensures
            r == self@.stage,
    {
        self.stage
    }

    /// Whether the adding waits for `event`.
    pub fn accepts(&self, event: &CommentEvent) -> (r: bool)
        ensures
            r == comment_expects(self@.stage, *event),
    {
        match event {
            CommentEvent::DatabaseFailed { .. } => self.stage != CommentStage::Finished,
            CommentEvent::Executed => self.stage == CommentStage::Inserting || self.stage
                == CommentStage::Counting,
            CommentEvent::Fetched => self.stage == CommentStage::Fetching,
        }
    }

    /// Takes the outcome of the last action and says what to do next.
    pub fn step(&mut self, event: CommentEvent) -> (a: CommentAction)
        requires
            comment_expects(old(self)@.stage, event),
        ensures
            comment_transition(old(self)@, event, final(self)@, a),
    {
        match event {
            CommentEvent::DatabaseFailed { error } => {
                self.stage = CommentStage::Finished;
                CommentAction::Fail(DomainError::InfrastructureError(error))
            },
            CommentEvent::Executed => {
                if self.stage == CommentStage::Inserting && self.visible {
                    self.stage = CommentStage::Counting;
                    CommentAction::IncrementComments
                } else {
                    self.stage = CommentStage::Fetching;
                    CommentAction::FetchComment
                }
            },
            CommentEvent::Fetched => {
                self.stage = CommentStage::Finished;
                CommentAction::Succeed
            },
        }
    }
}

} // verus!
