//! The write orchestrator as a state machine. The caller opens the store,
//! resolves keys, builds values, sets them and commits, one operation at a
//! time, as the session asks; it reports how each went, and the session
//! decides what comes next.
use crate::work::{field_order, rank, shape_of, Descriptor, Field, Shape, WorkTodo, FIELD_COUNT};
use vstd::prelude::*;

verus! {

/// One call into the property store.
#[derive(Clone, Copy, Debug, PartialEq, Eq, Structural)]
pub enum Op {
    /// Open the store of the file for reading and writing.
    OpenStore,
    /// Resolve the key of the field's property.
    ResolveKey(Field),
    /// Build a string vector from the field's text.
    BuildTextVector(Field),
    /// Build a one-element unsigned integer vector from the field's number.
    BuildNumberVector(Field),
    /// Take element zero of the vector just built as a single value.
    ExtractFirst(Field),
    /// Set the value just built under the key just resolved.
    SetValue(Field),
    /// Make the staged writes durable.
    Commit,
}

/// The step of a field write that failed.
#[derive(Clone, Copy, Debug, PartialEq, Eq, Structural)]
pub enum Failure {
    KeyResolution,
    ValueConstruction,
    StoreWrite,
}

/// Why writing the metadata failed, with the host's diagnostic as `cause`.
#[derive(Debug)]
pub enum WorkError {
    StoreOpen { path: String, cause: String },
    FieldWrite { field: Field, failure: Failure, cause: String },
    Commit { cause: String },
}

pub enum ErrorView {
    StoreOpen { path: Seq<char>, cause: Seq<char> },
    FieldWrite { field: Field, failure: Failure, cause: Seq<char> },
    Commit { cause: Seq<char> },
}

impl View for WorkError {
    type V = ErrorView;

    open spec fn view(&self) -> ErrorView {
        match self {
            WorkError::StoreOpen { path, cause } => ErrorView::StoreOpen {
                path: path@,
                cause: cause@,
            },
            WorkError::FieldWrite { field, failure, cause } => ErrorView::FieldWrite {
                field: *field,
                failure: *failure,
                cause: cause@,
            },
            WorkError::Commit { cause } => ErrorView::Commit { cause: cause@ },
        }
    }
}

/// How an operation went: done, or failed with the host's diagnostic.
pub enum Event {
    Done,
    Failed(String),
}

/// `None` for an operation that was done, else the diagnostic.
pub open spec fn cause_of(e: Event) -> Option<Seq<char>> {
    match e {
        Event::Done => None,
        Event::Failed(c) => Some(c@),
    }
}

pub enum Status {
    Running,
    Done,
    Failed(WorkError),
}

pub enum StatusView {
    Running,
    Done,
    Failed(ErrorView),
}

pub struct SessionView {
    pub plan: Seq<Op>,
    pub pos: int,
    pub path: Seq<char>,
    pub status: StatusView,
}

/// The operations that write one field.
pub open spec fn field_ops(f: Field) -> Seq<Op> {
    match shape_of(f) {
        Shape::List => seq![Op::ResolveKey(f), Op::BuildTextVector(f), Op::SetValue(f)],
        Shape::Text => seq![
            Op::ResolveKey(f),
            Op::BuildTextVector(f),
            Op::ExtractFirst(f),
            Op::SetValue(f),
        ],
        Shape::Number => seq![
            Op::ResolveKey(f),
            Op::BuildNumberVector(f),
            Op::ExtractFirst(f),
            Op::SetValue(f),
        ],
    }
}

/// The writes of the first `n` fields of the fixed order that hold a value.
pub open spec fn writes_upto(d: Descriptor, n: nat) -> Seq<Op>
    decreases n,
{
    if n == 0 {
        seq![]
    } else {
        let f = field_order()[n - 1];
        writes_upto(d, (n - 1) as nat) + if d.has(f) {
            field_ops(f)
        } else {
            seq![]
        }
    }
}

/// Everything that writing the descriptor takes: open the store, write each
/// field that holds a value in the fixed order, commit.
pub open spec fn plan_of(d: Descriptor) -> Seq<Op> {
    seq![Op::OpenStore] + writes_upto(d, FIELD_COUNT as nat) + seq![Op::Commit]
}

pub open spec fn start_of(d: Descriptor) -> SessionView {
    SessionView { plan: plan_of(d), pos: 0, path: d.path, status: StatusView::Running }
}

/// The field that an operation writes, if any.
pub open spec fn op_field(op: Op) -> Option<Field> {
    match op {
        Op::ResolveKey(f) | Op::BuildTextVector(f) | Op::BuildNumberVector(f) | Op::ExtractFirst(f)
        | Op::SetValue(f) => Some(f),
        _ => None,
    }
}

/// The error reported when `op` fails.
pub open spec fn error_for(op: Op, path: Seq<char>, cause: Seq<char>) -> ErrorView {
    match op {
        Op::OpenStore => ErrorView::StoreOpen { path, cause },
        Op::ResolveKey(f) => ErrorView::FieldWrite { field: f, failure: Failure::KeyResolution, cause },
        Op::BuildTextVector(f) | Op::BuildNumberVector(f) | Op::ExtractFirst(f) => ErrorView::FieldWrite {
            field: f,
            failure: Failure::ValueConstruction,
            cause,
        },
        Op::SetValue(f) => ErrorView::FieldWrite { field: f, failure: Failure::StoreWrite, cause },
        Op::Commit => ErrorView::Commit { cause },
    }
}

/// The operation that the session asks for, if it still runs.
pub open spec fn next_op(s: SessionView) -> Option<Op> {
    if s.status is Running {
        Some(s.plan[s.pos])
    } else {
        None
    }
}

/// The session after the operation it asked for went as `ev` says: on
/// success the next operation, or done after the last; on failure the
/// error, with nothing more to do.
pub open spec fn next_state(s: SessionView, ev: Option<Seq<char>>) -> SessionView {
    if !(s.status is Running) {
        s
    } else {
        match ev {
            None => SessionView {
                pos: s.pos + 1,
                status: if s.pos + 1 == s.plan.len() {
                    StatusView::Done
                } else {
                    StatusView::Running
                },
                ..s
            },
            Some(c) => SessionView {
                status: StatusView::Failed(error_for(s.plan[s.pos], s.path, c)),
                ..s
            },
        }
    }
}

/// The operations issued, and the session at the end, when the outcomes of
/// the operations are `evs` in turn.
pub open spec fn run(s: SessionView, evs: Seq<Option<Seq<char>>>) -> (Seq<Op>, SessionView)
    decreases evs.len(),
{
    if evs.len() == 0 || !(s.status is Running) {
        (seq![], s)
    } else {
        let r = run(next_state(s, evs[0]), evs.drop_first());
        (seq![s.plan[s.pos]] + r.0, r.1)
    }
}

/// One write of a descriptor in progress.
pub struct Session {
    plan: Vec<Op>,
    pos: usize,
    path: String,
    status: Status,
}

impl View for Session {
    type V = SessionView;

    closed spec fn view(&self) -> SessionView {
        SessionView {
            plan: self.plan@,
            pos: self.pos as int,
            path: self.path@,
            status: match self.status {
                Status::Running => StatusView::Running,
                Status::Done => StatusView::Done,
                Status::Failed(e) => StatusView::Failed(e@),
            },
        }
    }
}

fn push_field_ops(plan: &mut Vec<Op>, f: Field)
    ensures
        final(plan)@ == old(plan)@ + field_ops(f),
{
    plan.push(Op::ResolveKey(f));
    match f.shape() {
        Shape::List => {
            plan.push(Op::BuildTextVector(f));
        },
        Shape::Text => {
            plan.push(Op::BuildTextVector(f));
            plan.push(Op::ExtractFirst(f));
        },
        Shape::Number => {
            plan.push(Op::BuildNumberVector(f));
            plan.push(Op::ExtractFirst(f));
        },
    }
    plan.push(Op::SetValue(f));
    assert(plan@ =~= old(plan)@ + field_ops(f));
}

proof fn lemma_writes_len(d: Descriptor, n: nat)
    ensures
        writes_upto(d, n).len() <= 4 * n,
    decreases n,
{
    if n > 0 {
        lemma_writes_len(d, (n - 1) as nat);
    }
}

impl Session {
    #[verifier::type_invariant]
    closed spec fn inv(self) -> bool {
        &&& self.pos <= self.plan.len()
        &&& self.plan.len() < usize::MAX
        &&& self.status is Running ==> self.pos < self.plan.len()
    }

    /// A session that will write `work`, before any operation.
    pub fn start(work: &WorkTodo) -> (s: Session)
        ensures
            s@ == start_of(work@),
    {
        let mut plan: Vec<Op> = Vec::new();
        plan.push(Op::OpenStore);
        let mut i: usize = 0;
        while i < FIELD_COUNT
            invariant
                i <= FIELD_COUNT,
                plan@ == seq![Op::OpenStore] + writes_upto(work@, i as nat),
            decreases FIELD_COUNT - i,
        {
            let f = Field::at(i);
            if work.has(f) {
                push_field_ops(&mut plan, f);
            }
            assert(plan@ =~= seq![Op::OpenStore] + writes_upto(work@, (i + 1) as nat));
            i = i + 1;
        }
        proof {
            lemma_writes_len(work@, FIELD_COUNT as nat);
        }
        plan.push(Op::Commit);
        assert(plan@ =~= plan_of(work@));
        Session { plan, pos: 0, path: work.path().to_owned(), status: Status::Running }
    }

    /// The operation to perform next, or `None` once the session is over.
    pub fn next_op(&self) -> (r: Option<Op>)
        ensures
            r == next_op(self@),
    {
        proof {
            use_type_invariant(self);
        }
        match self.status {
            Status::Running => Some(self.plan[self.pos]),
            _ => None,
        }
    }

    /// Takes in how the operation asked for went.
    pub fn advance(&mut self, ev: Event)
        ensures
            final(self)@ == next_state(old(self)@, cause_of(ev)),
    {
        proof {
            use_type_invariant(&*self);
        }
        match self.status {
            Status::Running => {},
            _ => {
                return ;
            },
        }
        match ev {
            Event::Done => {
                let next = self.pos + 1;
                if next == self.plan.len() {
                    self.status = Status::Done;
                }
                self.pos = next;
            },
            Event::Failed(cause) => {
                let op = self.plan[self.pos];
                let error = match op {
                    Op::OpenStore => WorkError::StoreOpen { path: self.path.clone(), cause },
                    Op::ResolveKey(f) => WorkError::FieldWrite {
                        field: f,
                        failure: Failure::KeyResolution,
                        cause,
                    },
                    Op::BuildTextVector(f) | Op::BuildNumberVector(f) | Op::ExtractFirst(f) => {
                        WorkError::FieldWrite { field: f, failure: Failure::ValueConstruction, cause }
                    },
                    Op::SetValue(f) => WorkError::FieldWrite {
                        field: f,
                        failure: Failure::StoreWrite,
                        cause,
                    },
                    Op::Commit => WorkError::Commit { cause },
                };
                self.status = Status::Failed(error);
            },
        }
    }

    /// The outcome once the session is over: `Ok` after a successful
    /// commit, else the error of the first operation that failed. `None`
    /// while operations are still to be done.
    pub fn finish(self) -> (r: Option<Result<(), WorkError>>)
        ensures
            match self@.status {
                StatusView::Running => r is None,
                StatusView::Done => r == Some(Ok::<(), WorkError>(())),
                StatusView::Failed(e) => r is Some && r->0 is Err && r->0->Err_0@ == e,
            },
    {
        match self.status {
            Status::Running => None,
            Status::Done => Some(Ok(())),
            Status::Failed(e) => Some(Err(e)),
        }
    }
}

/// When every operation from the current one on succeeds, the session
/// issues the rest of its plan, in order, and ends done.
pub proof fn lemma_run_all_done(s: SessionView, evs: Seq<Option<Seq<char>>>)
    requires
        s.status is Running,
        0 <= s.pos < s.plan.len(),
        evs.len() == s.plan.len() - s.pos,
        forall|j: int| 0 <= j < evs.len() ==> #[trigger] evs[j] is None,
    ensures
        run(s, evs).0 == s.plan.subrange(s.pos, s.plan.len() as int),
        run(s, evs).1.status is Done,
    decreases evs.len(),
{
    let n = next_state(s, evs[0]);
    if evs.len() > 1 {
        assert forall|j: int| 0 <= j < evs.drop_first().len() implies #[trigger] evs.drop_first()[j] is None by {
            assert(evs[j + 1] is None);
        }
        lemma_run_all_done(n, evs.drop_first());
    }
    assert(seq![s.plan[s.pos]] + run(n, evs.drop_first()).0 =~= s.plan.subrange(
        s.pos,
        s.plan.len() as int,
    ));
}

/// The session issues the operations of its plan up to the first one that
/// fails, none after it, and ends with that operation's error.
pub proof fn lemma_run_until_failure(s: SessionView, evs: Seq<Option<Seq<char>>>, i: int)
    requires
        s.status is Running,
        0 <= s.pos,
        0 <= i < evs.len(),
        s.pos + i < s.plan.len(),
        forall|j: int| 0 <= j < i ==> #[trigger] evs[j] is None,
        evs[i] is Some,
    ensures
        run(s, evs).0 == s.plan.subrange(s.pos, s.pos + i + 1),
        run(s, evs).1.status == StatusView::Failed(error_for(s.plan[s.pos + i], s.path, evs[i]->0)),
    decreases i,
{
    let n = next_state(s, evs[0]);
    if i > 0 {
        assert(evs[0] is None);
        assert forall|j: int| 0 <= j < i - 1 implies #[trigger] evs.drop_first()[j] is None by {
            assert(evs[j + 1] is None);
        }
        lemma_run_until_failure(n, evs.drop_first(), i - 1);
    }
    assert(seq![s.plan[s.pos]] + run(n, evs.drop_first()).0 =~= s.plan.subrange(
        s.pos,
        s.pos + i + 1,
    ));
}

proof fn lemma_order_rank(i: int)
    requires
        0 <= i < FIELD_COUNT,
    ensures
        rank(field_order()[i]) == i,
{
    if i == 0 {
    } else if i == 1 {
    } else if i == 2 {
    } else if i == 3 {
    } else if i == 4 {
    } else if i == 5 {
    } else if i == 6 {
    } else if i == 7 {
    } else if i == 8 {
    } else if i == 9 {
    } else {
    }
}

proof fn lemma_writes_ranked(d: Descriptor, n: nat)
    requires
        n <= FIELD_COUNT,
    ensures
        forall|k: int|
            0 <= k < writes_upto(d, n).len() ==> op_field(#[trigger] writes_upto(d, n)[k]) is Some
                && rank(op_field(writes_upto(d, n)[k])->0) < n,
        forall|j: int, k: int|
            0 <= j <= k < writes_upto(d, n).len() ==> rank(
                op_field(#[trigger] writes_upto(d, n)[j])->0,
            ) <= rank(op_field(#[trigger] writes_upto(d, n)[k])->0),
    decreases n,
{
    if n > 0 {
        let m = (n - 1) as nat;
        lemma_writes_ranked(d, m);
        lemma_order_rank(m as int);
        let f = field_order()[m as int];
        let w = writes_upto(d, n);
        let old_w = writes_upto(d, m);
        assert forall|k: int| 0 <= k < w.len() implies op_field(#[trigger] w[k]) is Some && rank(
            op_field(w[k])->0,
        ) < n && (k >= old_w.len() ==> op_field(w[k]) == Some(f)) by {
            if k >= old_w.len() {
                assert(w[k] == field_ops(f)[k - old_w.len()]);
            } else {
                assert(w[k] == old_w[k]);
            }
        }
        assert forall|j: int, k: int| 0 <= j <= k < w.len() implies rank(
            op_field(#[trigger] w[j])->0,
        ) <= rank(op_field(#[trigger] w[k])->0) by {
            if k < old_w.len() {
                assert(w[k] == old_w[k]);
                assert(w[j] == old_w[j]);
            } else if j < old_w.len() {
                assert(w[j] == old_w[j]);
            }
        }
    }
}

/// When every operation succeeds, writing a descriptor opens the store,
/// writes each field that holds a value in the fixed order, commits last,
/// and ends done.
pub proof fn lemma_all_writes_done(d: Descriptor, evs: Seq<Option<Seq<char>>>)
    requires
        evs.len() == plan_of(d).len(),
        forall|j: int| 0 <= j < evs.len() ==> #[trigger] evs[j] is None,
    ensures
        run(start_of(d), evs).0 == plan_of(d),
        run(start_of(d), evs).1.status is Done,
        plan_of(d)[0] == Op::OpenStore,
        plan_of(d).last() == Op::Commit,
{
    lemma_run_all_done(start_of(d), evs);
    assert(plan_of(d).subrange(0, plan_of(d).len() as int) =~= plan_of(d));
}

/// When the write of a field fails, the session reports that field's
/// error; no field after it in the fixed order is attempted and the store
/// is never committed.
pub proof fn lemma_failed_write_stops(d: Descriptor, evs: Seq<Option<Seq<char>>>, i: int)
    requires
        0 <= i < evs.len(),
        i < plan_of(d).len(),
        forall|j: int| 0 <= j < i ==> #[trigger] evs[j] is None,
        evs[i] is Some,
        op_field(plan_of(d)[i]) is Some,
    ensures
        run(start_of(d), evs).0 == plan_of(d).take(i + 1),
        run(start_of(d), evs).1.status == StatusView::Failed(
            error_for(plan_of(d)[i], d.path, evs[i]->0),
        ),
        error_for(plan_of(d)[i], d.path, evs[i]->0) is FieldWrite,
        forall|k: int|
            0 <= k < run(start_of(d), evs).0.len() ==> #[trigger] run(start_of(d), evs).0[k]
                != Op::Commit && (op_field(run(start_of(d), evs).0[k]) is Some ==> rank(
                op_field(run(start_of(d), evs).0[k])->0,
            ) <= rank(op_field(plan_of(d)[i])->0)),
{
    let p = plan_of(d);
    let w = writes_upto(d, FIELD_COUNT as nat);
    lemma_run_until_failure(start_of(d), evs, i);
    assert(p.subrange(0, i + 1) =~= p.take(i + 1));
    lemma_writes_ranked(d, FIELD_COUNT as nat);
    assert(1 <= i <= w.len()) by {
        if i == 0 {
            assert(p[0] == Op::OpenStore);
        }
        if i == w.len() + 1 {
            assert(p[i] == Op::Commit);
        }
    }
    assert(p[i] == w[i - 1]);
    assert forall|k: int| 0 <= k < p.take(i + 1).len() implies #[trigger] p.take(i + 1)[k]
        != Op::Commit && (op_field(p.take(i + 1)[k]) is Some ==> rank(
        op_field(p.take(i + 1)[k])->0,
    ) <= rank(op_field(p[i])->0)) by {
        if k > 0 {
            assert(p.take(i + 1)[k] == w[k - 1]);
        } else {
            assert(p.take(i + 1)[k] == Op::OpenStore);
        }
    }
}

/// When the store cannot be opened, the session reports the path with the
/// diagnostic, and no field write is attempted.
pub proof fn lemma_open_failure_stops(d: Descriptor, evs: Seq<Option<Seq<char>>>)
    requires
        evs.len() > 0,
        evs[0] is Some,
    ensures
        run(start_of(d), evs).0 == seq![Op::OpenStore],
        run(start_of(d), evs).1.status == StatusView::Failed(
            ErrorView::StoreOpen { path: d.path, cause: evs[0]->0 },
        ),
{
    lemma_run_until_failure(start_of(d), evs, 0);
    assert(plan_of(d).subrange(0, 1) =~= seq![Op::OpenStore]);
}

} // verus!
