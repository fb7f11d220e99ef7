//! Line diffs of two pages: the edit script of Myers' algorithm (from the `diffs`
//! crate) turned into hunk headers like `-3,1 +3,2`.
use vstd::prelude::*;

use crate::text::{chars_of, decimal, decimal_exec, lines, lines_exec, string_from_chars, views};

verus! {

/// One step of an edit script from an old to a new sequence of lines.
#[derive(Clone, Copy, Debug, PartialEq, Eq, Structural)]
pub enum DiffOp {
    /// `Equal(old, new, len)`: `len` lines equal in both versions.
    Equal(usize, usize, usize),
    /// `Delete(old, len, new)`: `len` old lines deleted.
    Delete(usize, usize, usize),
    /// `Insert(old, new, new_len)`: `new_len` new lines inserted.
    Insert(usize, usize, usize),
    /// `Replace(old, old_len, new, new_len)`.
    Replace(usize, usize, usize, usize),
    /// The end of the script.
    Finish,
}

/// Records the edit script `diffs` reports.
pub struct ScriptRecorder {
    pub ops: Vec<DiffOp>,
}

impl diffs::Diff for ScriptRecorder {
    type Error = ();

    fn equal(&mut self, old_at: usize, new_at: usize, len: usize) -> (r: Result<(), ()>)
        ensures
            final(self).ops@ == old(self).ops@.push(DiffOp::Equal(old_at, new_at, len)),
            r == Ok::<(), ()>(()),
    {
        self.ops.push(DiffOp::Equal(old_at, new_at, len));
        Ok(())
    }

    fn delete(&mut self, old_at: usize, len: usize, new_at: usize) -> (r: Result<(), ()>)
        ensures
            final(self).ops@ == old(self).ops@.push(DiffOp::Delete(old_at, len, new_at)),
            r == Ok::<(), ()>(()),
    {
        self.ops.push(DiffOp::Delete(old_at, len, new_at));
        Ok(())
    }

    fn insert(&mut self, old_at: usize, new_at: usize, new_len: usize) -> (r: Result<(), ()>)
        ensures
            final(self).ops@ == old(self).ops@.push(DiffOp::Insert(old_at, new_at, new_len)),
            r == Ok::<(), ()>(()),
    {
        self.ops.push(DiffOp::Insert(old_at, new_at, new_len));
        Ok(())
    }

    fn replace(&mut self, old_at: usize, old_len: usize, new_at: usize, new_len: usize) -> (r: Result<
        (),
        (),
    >)
        ensures
            final(self).ops@ == old(self).ops@.push(
                DiffOp::Replace(old_at, old_len, new_at, new_len),
            ),
            r == Ok::<(), ()>(()),
    {
        self.ops.push(DiffOp::Replace(old_at, old_len, new_at, new_len));
        Ok(())
    }

    fn finish(&mut self) -> (r: Result<(), ()>)
        ensures
            final(self).ops@ == old(self).ops@.push(DiffOp::Finish),
            r == Ok::<(), ()>(()),
    {
        self.ops.push(DiffOp::Finish);
        Ok(())
    }
}

/// The edit script that `diffs::myers::diff`, through `diffs::Replace` (which joins
/// deletions and insertions into replacements), reports for two sequences of lines.
pub uninterp spec fn myers_script(old: Seq<Seq<char>>, new: Seq<Seq<char>>) -> Seq<DiffOp>;

/// The steps of a script stay within the two sequences.
pub open spec fn op_in_bounds(op: DiffOp, n_old: nat, n_new: nat) -> bool {
    match op {
        DiffOp::Equal(o, n, l) => o + l <= n_old && n + l <= n_new,
        DiffOp::Delete(o, l, n) => o + l <= n_old && n <= n_new,
        DiffOp::Insert(o, n, l) => o <= n_old && n + l <= n_new,
        DiffOp::Replace(o, ol, n, nl) => o + ol <= n_old && n + nl <= n_new,
        DiffOp::Finish => true,
    }
}

/// A step that deletes, inserts or replaces lines.
pub open spec fn is_change(op: DiffOp) -> bool {
    op is Delete || op is Insert || op is Replace
}

/// The script of two equal sequences: one run of equal lines (none for empty ones), then the end.
pub open spec fn identical_script(n: nat) -> Seq<DiffOp> {
    if n == 0 {
        seq![DiffOp::Finish]
    } else {
        seq![DiffOp::Equal(0, 0, n as usize), DiffOp::Finish]
    }
}

/// Runs Myers' diff of `diffs` on two sequences of lines and records the edit script.
/// What is stated: the script is a function of the two sequences, its steps stay
/// within them (as `Diff`'s documentation describes the indices), it ends with the
/// one call of `finish` (made last by `myers::diff` and passed on last by `Replace`),
/// for equal sequences it is one run of equal lines (the search finds the whole
/// common diagonal at once), and, being an edit script from the old sequence to the
/// new one, for different sequences it holds a step that deletes, inserts or replaces.
#[verifier::external_body]
fn record_myers_script(old: &Vec<Vec<char>>, new: &Vec<Vec<char>>) -> (r: Vec<DiffOp>)
    ensures
        r@ == myers_script(old@.map_values(|v: Vec<char>| v@), new@.map_values(|v: Vec<char>| v@)),
        forall|i: int|
            0 <= i < r@.len() ==> op_in_bounds(#[trigger] r@[i], old@.len(), new@.len()),
        r@.len() > 0 && r@.last() == DiffOp::Finish,
        old@.map_values(|v: Vec<char>| v@) == new@.map_values(|v: Vec<char>| v@) ==> r@
            == identical_script(old@.len()),
        old@.map_values(|v: Vec<char>| v@) != new@.map_values(|v: Vec<char>| v@) ==> exists|i: int|
            0 <= i < r@.len() && is_change(#[trigger] r@[i]),
{
    let mut recorder = ScriptRecorder { ops: Vec::new() };
    let _ = diffs::myers::diff(
        &mut diffs::Replace::new(&mut recorder),
        old.as_slice(),
        0,
        old.len(),
        new.as_slice(),
        0,
        new.len(),
    );
    recorder.ops
}

/// The state of the hunk context: numbers and the context's lines.
pub struct ContextModel {
    pub start: Option<nat>,
    pub data: Seq<Seq<char>>,
    pub changed: bool,
    pub counter: nat,
    pub equaled: nat,
    pub removed: nat,
    pub inserted: nat,
}

/// The state of the processor, as numbers and the hunk headers so far.
pub struct ProcessorModel {
    pub inserted: nat,
    pub removed: nat,
    pub context: ContextModel,
    pub result: Seq<Seq<char>>,
}

/// The hunk context being built.
pub struct Context {
    pub start: Option<usize>,
    pub data: Vec<String>,
    pub changed: bool,
    pub counter: usize,
    pub equaled: usize,
    pub removed: usize,
    pub inserted: usize,
}

/// Turns an edit script into hunk headers.
pub struct Processor {
    pub inserted: usize,
    pub removed: usize,
    pub context: Context,
    pub result: Vec<String>,
}

/// An empty context.
pub open spec fn empty_context() -> ContextModel {
    ContextModel {
        start: None,
        data: Seq::empty(),
        changed: false,
        counter: 0,
        equaled: 0,
        removed: 0,
        inserted: 0,
    }
}

/// A new processor.
pub open spec fn initial_processor() -> ProcessorModel {
    ProcessorModel { inserted: 0, removed: 0, context: empty_context(), result: Seq::empty() }
}

/// The hunk header: `-start,old_len +new_start,new_len`.
pub open spec fn hunk_header(start: nat, old_len: nat, new_start: nat, new_len: nat) -> Seq<char> {
    "-"@ + decimal(start) + ","@ + decimal(old_len) + " +"@ + decimal(new_start) + ","@ + decimal(
        new_len,
    )
}

/// A start of 0 is reported as 1.
pub open spec fn shown_start(start: nat) -> nat {
    if start == 0 {
        1
    } else {
        start
    }
}

/// What `Context::to_vec` returns: nothing without a start or a change, otherwise the
/// hunk header followed by the context's lines.
pub open spec fn context_lines(c: ContextModel, removed: nat, inserted: nat) -> Seq<Seq<char>> {
    match c.start {
        None => Seq::empty(),
        Some(s) => if c.changed {
            seq![
                hunk_header(
                    shown_start(s),
                    c.equaled + c.removed,
                    (shown_start(s) + inserted - removed) as nat,
                    c.equaled + c.inserted,
                ),
            ] + c.data
        } else {
            Seq::empty()
        },
    }
}

/// `to_vec` neither underflows nor overflows.
pub open spec fn context_lines_ok(c: ContextModel, removed: nat, inserted: nat) -> bool {
    match c.start {
        None => true,
        Some(s) => !c.changed || (shown_start(s) + inserted >= removed && shown_start(s) + inserted
            <= usize::MAX && c.equaled + c.removed <= usize::MAX && c.equaled + c.inserted
            <= usize::MAX),
    }
}

/// The context with its start set, if it had none.
pub open spec fn with_start(c: ContextModel, old: nat) -> ContextModel {
    match c.start {
        None => ContextModel { start: Some(old), ..c },
        Some(_) => c,
    }
}

/// The processor with the context's start set, if it had none.
pub open spec fn processor_with_start(p: ProcessorModel, old: nat) -> ProcessorModel {
    ProcessorModel { context: with_start(p.context, old), ..p }
}

/// The processor after a run of `len` equal lines at `old`: while nothing changed
/// the start moves past them; after a change the hunk is reported and a new one
/// starts just before them.
pub open spec fn step_equal(p: ProcessorModel, old: nat, len: nat) -> ProcessorModel {
    let c = with_start(p.context, old);
    if !c.changed {
        ProcessorModel {
            context: ContextModel {
                start: Some((c.start->0 + len) as nat),
                counter: len,
                ..c
            },
            ..p
        }
    } else if len == 0 {
        ProcessorModel { context: ContextModel { counter: 0, ..c }, ..p }
    } else {
        ProcessorModel {
            inserted: p.inserted + c.inserted,
            removed: p.removed + c.removed,
            context: ContextModel {
                start: Some((old - 1 + len - 1) as nat),
                counter: (len - 1) as nat,
                ..empty_context()
            },
            result: p.result + context_lines(c, p.removed, p.inserted),
        }
    }
}

/// A run of equal lines: before any change the start moves past the run and nothing
/// is reported; after a change with a start, the hunk is reported with the context's
/// lines, its counts are added, and a new hunk starts just before the run.
pub proof fn lemma_equal_step(p: ProcessorModel, old: nat, len: nat)
    ensures
        !with_start(p.context, old).changed ==> {
            let q = step_equal(p, old, len);
            &&& q.result == p.result
            &&& q.removed == p.removed
            &&& q.inserted == p.inserted
            &&& q.context.start == Some((with_start(p.context, old).start->0 + len) as nat)
            &&& q.context.counter == len
        },
        p.context.changed && p.context.start is Some && len > 0 && old >= 1 ==> {
            let q = step_equal(p, old, len);
            &&& q.result == p.result + context_lines(p.context, p.removed, p.inserted)
            &&& q.removed == p.removed + p.context.removed
            &&& q.inserted == p.inserted + p.context.inserted
            &&& !q.context.changed
            &&& q.context.start == Some((old + len - 2) as nat)
            &&& q.context.counter == len - 1
            &&& q.context.data.len() == 0
            &&& q.context.equaled == 0 && q.context.removed == 0 && q.context.inserted == 0
        },
{
}

/// The steps that change lines: a deletion of `l` old lines adds `l` to the lines the
/// hunk removes and nothing to those it inserts; an insertion of `l` new lines adds `l`
/// to those it inserts only; a replacement adds to both. Each marks the hunk as changed,
/// starts it at the step when it had no start, and reports nothing yet.
pub proof fn lemma_change_steps(p: ProcessorModel, o: usize, n: usize, l: usize, l2: usize)
    ensures
        ({
            let q = step(p, DiffOp::Delete(o, l, n));
            &&& q.context.removed == p.context.removed + l
            &&& q.context.inserted == p.context.inserted
        }),
        ({
            let q = step(p, DiffOp::Insert(o, n, l));
            &&& q.context.removed == p.context.removed
            &&& q.context.inserted == p.context.inserted + l
        }),
        ({
            let q = step(p, DiffOp::Replace(o, l, n, l2));
            &&& q.context.removed == p.context.removed + l
            &&& q.context.inserted == p.context.inserted + l2
        }),
        forall|op: DiffOp|
            #![trigger step(p, op)]
            (op is Delete || op is Insert || op is Replace) ==> {
                let q = step(p, op);
                let at = match op {
                    DiffOp::Delete(a, _, _) => a,
                    DiffOp::Insert(a, _, _) => a,
                    DiffOp::Replace(a, _, _, _) => a,
                    _ => 0,
                };
                &&& q.context.changed
                &&& q.context.start == match p.context.start {
                    Some(s) => Some(s),
                    None => Some(at as nat),
                }
                &&& q.result == p.result
                &&& q.removed == p.removed
                &&& q.inserted == p.inserted
                &&& q.context.equaled == p.context.equaled
            },
{
}

/// `step_equal` does not underflow nor overflow.
pub open spec fn step_equal_ok(p: ProcessorModel, old: nat, len: nat) -> bool {
    let c = with_start(p.context, old);
    &&& old + len <= usize::MAX
    &&& !c.changed ==> c.start->0 + len <= usize::MAX
    &&& c.changed && len > 0 ==> {
        &&& old >= 1
        &&& context_lines_ok(c, p.removed, p.inserted)
        &&& p.inserted + c.inserted <= usize::MAX
        &&& p.removed + c.removed <= usize::MAX
    }
}

/// The processor after a change of `del` old lines into `ins` new lines at `old`.
pub open spec fn step_change(p: ProcessorModel, old: nat, del: nat, ins: nat) -> ProcessorModel {
    let c = with_start(p.context, old);
    ProcessorModel {
        context: ContextModel {
            changed: true,
            removed: c.removed + del,
            inserted: c.inserted + ins,
            ..c
        },
        ..p
    }
}

/// `step_change` does not overflow.
pub open spec fn step_change_ok(p: ProcessorModel, old: nat, del: nat, ins: nat) -> bool {
    let c = with_start(p.context, old);
    c.removed + del <= usize::MAX && c.inserted + ins <= usize::MAX
}

/// The processor at the end: the last hunk is reported.
pub open spec fn step_finish(p: ProcessorModel) -> ProcessorModel {
    ProcessorModel { result: p.result + context_lines(p.context, p.removed, p.inserted), ..p }
}

/// The processor after one step of the script.
pub open spec fn step(p: ProcessorModel, op: DiffOp) -> ProcessorModel {
    match op {
        DiffOp::Equal(o, _, l) => step_equal(p, o as nat, l as nat),
        DiffOp::Delete(o, l, _) => step_change(p, o as nat, l as nat, 0),
        DiffOp::Insert(o, _, l) => step_change(p, o as nat, 0, l as nat),
        DiffOp::Replace(o, ol, _, nl) => step_change(p, o as nat, ol as nat, nl as nat),
        DiffOp::Finish => step_finish(p),
    }
}

/// One step of the script neither underflows nor overflows.
pub open spec fn step_ok(p: ProcessorModel, op: DiffOp) -> bool {
    match op {
        DiffOp::Equal(o, _, l) => step_equal_ok(p, o as nat, l as nat),
        DiffOp::Delete(o, l, _) => step_change_ok(p, o as nat, l as nat, 0),
        DiffOp::Insert(o, _, l) => step_change_ok(p, o as nat, 0, l as nat),
        DiffOp::Replace(o, ol, _, nl) => step_change_ok(p, o as nat, ol as nat, nl as nat),
        DiffOp::Finish => context_lines_ok(p.context, p.removed, p.inserted),
    }
}

/// The processor after the first `n` steps.
pub open spec fn run(ops: Seq<DiffOp>, n: nat) -> ProcessorModel
    decreases n,
{
    if n == 0 || n > ops.len() {
        initial_processor()
    } else {
        step(run(ops, (n - 1) as nat), ops[n - 1])
    }
}

/// Every step of the script is free of underflow and overflow.
pub open spec fn script_ok(ops: Seq<DiffOp>) -> bool {
    forall|k: nat| k < ops.len() ==> step_ok(#[trigger] run(ops, k), ops[k as int])
}

/// The first step of the script that would underflow or overflow.
pub open spec fn first_bad_step(ops: Seq<DiffOp>, k: nat) -> bool {
    k < ops.len() && !step_ok(run(ops, k), ops[k as int]) && forall|j: nat|
        j < k ==> step_ok(#[trigger] run(ops, j), ops[j as int])
}

/// Why a diff could not be made.
#[derive(Clone, Copy, Debug, PartialEq, Eq, Structural)]
pub enum DiffError {
    /// A hunk position would leave the range of `usize`.
    PositionOutOfRange,
}

impl Context {
    /// An empty context.
    pub fn new() -> (r: Self)
        ensures
            r.model() == empty_context(),
            r.data@.len() == 0,
    {
        let r = Context {
            start: None,
            data: Vec::new(),
            changed: false,
            counter: 0,
            equaled: 0,
            removed: 0,
            inserted: 0,
        };
        assert(views(r.data@) =~= Seq::<Seq<char>>::empty());
        r
    }

    pub open spec fn model(&self) -> ContextModel {
        ContextModel {
            start: match self.start {
                Some(s) => Some(s as nat),
                None => None,
            },
            data: views(self.data@),
            changed: self.changed,
            counter: self.counter as nat,
            equaled: self.equaled as nat,
            removed: self.removed as nat,
            inserted: self.inserted as nat,
        }
    }

    /// The hunk header of the context (after `removed` lines were deleted and
    /// `inserted` inserted before it) and its lines, if it holds a change.
    pub fn to_vec(&self, removed: usize, inserted: usize) -> (r: Vec<String>)
        requires
            context_lines_ok(self.model(), removed as nat, inserted as nat),
        ensures
            views(r@) == context_lines(self.model(), removed as nat, inserted as nat),
    {
        let mut start = match self.start {
            Some(s) => s,
            None => {
                return Vec::new();
            },
        };
        if start == 0 {
            start = 1;
        }
        let mut data: Vec<String> = Vec::new();
        if self.changed {
            let mut h = String::from_str("-");
            h.append(string_from_chars(&decimal_exec(start as u128)).as_str());
            h.append(",");
            h.append(string_from_chars(&decimal_exec((self.equaled + self.removed) as u128)).as_str());
            h.append(" +");
            h.append(string_from_chars(&decimal_exec((start + inserted - removed) as u128)).as_str());
            h.append(",");
            h.append(string_from_chars(&decimal_exec((self.equaled + self.inserted) as u128)).as_str());
            data.push(h);
            let ghost head = views(data@);
            let mut i: usize = 0;
            while i < self.data.len()
                invariant
                    i <= self.data@.len(),
                    views(data@) == head + views(self.data@).take(i as int),
                decreases self.data@.len() - i,
            {
                let ghost before = views(data@);
                data.push(self.data[i].clone());
                assert(views(data@) =~= before.push(self.data@[i as int]@));
                assert(views(self.data@).take(i + 1) =~= views(self.data@).take(i as int).push(
                    self.data@[i as int]@,
                ));
                i = i + 1;
            }
            assert(views(self.data@).take(i as int) =~= views(self.data@));
            assert(views(data@) =~= context_lines(self.model(), removed as nat, inserted as nat));
        }
        data
    }
}

impl Processor {
    /// A processor that has seen no step.
    pub fn new() -> (r: Self)
        ensures
            r.model() == initial_processor(),
            r.wf(),
    {
        let r = Processor { inserted: 0, removed: 0, context: Context::new(), result: Vec::new() };
        assert(views(r.result@) =~= Seq::<Seq<char>>::empty());
        r
    }

    /// The hunk headers so far.
    pub fn result(self) -> (r: Vec<String>)
        ensures
            views(r@) == self.model().result,
    {
        self.result
    }

    /// The context never collects lines.
    pub open spec fn wf(&self) -> bool {
        self.context.data@.len() == 0
    }

    pub open spec fn model(&self) -> ProcessorModel {
        ProcessorModel {
            inserted: self.inserted as nat,
            removed: self.removed as nat,
            context: self.context.model(),
            result: views(self.result@),
        }
    }

    fn set_start_if_none(&mut self, at: usize)
        ensures
            final(self).model() == processor_with_start(old(self).model(), at as nat),
            final(self).context.data == old(self).context.data,
    {
        if self.context.start.is_none() {
            self.context.start = Some(at);
        }
    }

    /// A run of `len` equal lines at `old`.
    pub fn equal(&mut self, at: usize, len: usize)
        requires
            old(self).wf(),
            step_equal_ok(old(self).model(), at as nat, len as nat),
        ensures
            final(self).wf(),
            final(self).model() == step_equal(old(self).model(), at as nat, len as nat),
    {
        let ghost p = self.model();
        self.set_start_if_none(at);
        self.context.counter = 0;
        let mut i = at;
        while i < at + len
            invariant
                self.wf(),
                at <= i <= at + len,
                self.model() == step_equal(p, at as nat, (i - at) as nat),
                step_equal_ok(p, at as nat, len as nat),
            decreases at + len - i,
        {
            if !self.context.changed {
                match self.context.start {
                    Some(s) => {
                        self.context.start = Some(s + 1);
                    },
                    None => {},
                }
                self.context.counter = self.context.counter + 1;
            }
            if self.context.changed && self.context.counter == 0 && len > 0 {
                let mut lines = self.context.to_vec(self.removed, self.inserted);
                let mut context = Context::new();
                context.counter = 0;
                context.equaled = 0;
                context.start = Some(i - 1);
                self.removed = self.removed + self.context.removed;
                self.inserted = self.inserted + self.context.inserted;
                let ghost before = self.result@;
                let ghost lines_before = lines@;
                self.result.append(&mut lines);
                proof {
                    crate::text::lemma_views_add(before, lines_before);
                }
                self.context = context;
            }
            i = i + 1;
        }
    }

    /// `len` old lines deleted at `old`.
    pub fn delete(&mut self, at: usize, len: usize)
        requires
            old(self).wf(),
            step_change_ok(old(self).model(), at as nat, len as nat, 0),
        ensures
            final(self).wf(),
            final(self).model() == step_change(old(self).model(), at as nat, len as nat, 0),
    {
        self.set_start_if_none(at);
        self.context.changed = true;
        self.context.removed = self.context.removed + len;
    }

    /// `new_len` new lines inserted at `old`.
    pub fn insert(&mut self, at: usize, new_len: usize)
        requires
            old(self).wf(),
            step_change_ok(old(self).model(), at as nat, 0, new_len as nat),
        ensures
            final(self).wf(),
            final(self).model() == step_change(old(self).model(), at as nat, 0, new_len as nat),
    {
        self.set_start_if_none(at);
        self.context.changed = true;
        self.context.inserted = self.context.inserted + new_len;
    }

    /// `old_len` old lines at `old` replaced by `new_len` new lines.
    pub fn replace(&mut self, at: usize, old_len: usize, new_len: usize)
        requires
            old(self).wf(),
            step_change_ok(old(self).model(), at as nat, old_len as nat, new_len as nat),
        ensures
            final(self).wf(),
            final(self).model() == step_change(
                old(self).model(),
                at as nat,
                old_len as nat,
                new_len as nat,
            ),
    {
        self.set_start_if_none(at);
        self.context.changed = true;
        self.context.removed = self.context.removed + old_len;
        self.context.inserted = self.context.inserted + new_len;
    }

    /// The end of the script: the last hunk is reported.
    pub fn finish(&mut self)
        requires
            old(self).wf(),
            context_lines_ok(old(self).model().context, old(self).removed as nat, old(self).inserted as nat),
        ensures
            final(self).wf(),
            final(self).model() == step_finish(old(self).model()),
    {
        let truncation = self.context.counter;
        if self.context.data.len() > truncation {
            let new_size = self.context.data.len() - truncation;
            self.context.equaled = self.context.equaled - truncation;
            self.context.data.truncate(new_size);
        }
        let mut lines = self.context.to_vec(self.removed, self.inserted);
        let ghost before = self.result@;
        let ghost lines_before = lines@;
        self.result.append(&mut lines);
        proof {
            crate::text::lemma_views_add(before, lines_before);
        }
    }

    /// Whether the next step is free of underflow and overflow.
    pub fn can_step(&self, op: DiffOp) -> (r: bool)
        ensures
            r == step_ok(self.model(), op),
    {
        let c = &self.context;
        match op {
            DiffOp::Equal(o, _, l) => {
                let (start, changed) = match c.start {
                    Some(s) => (s, c.changed),
                    None => (o, c.changed),
                };
                if o > usize::MAX - l {
                    return false;
                }
                if !changed {
                    return start <= usize::MAX - l;
                }
                if l == 0 {
                    return true;
                }
                o >= 1 && self.to_vec_ok(start, true) && self.inserted <= usize::MAX - c.inserted
                    && self.removed <= usize::MAX - c.removed
            },
            DiffOp::Delete(_, l, _) => c.removed <= usize::MAX - l,
            DiffOp::Insert(_, _, l) => c.inserted <= usize::MAX - l,
            DiffOp::Replace(_, ol, _, nl) => c.removed <= usize::MAX - ol && c.inserted
                <= usize::MAX - nl,
            DiffOp::Finish => match c.start {
                None => true,
                Some(s) => self.to_vec_ok(s, c.changed),
            },
        }
    }

    fn to_vec_ok(&self, start: usize, changed: bool) -> (r: bool)
        ensures
            r == context_lines_ok(
                ContextModel { start: Some(start as nat), changed, ..self.context.model() },
                self.removed as nat,
                self.inserted as nat,
            ),
    {
        if !changed {
            return true;
        }
        let s = if start == 0 {
            1
        } else {
            start
        };
        let c = &self.context;
        s <= usize::MAX - self.inserted && s + self.inserted >= self.removed && c.equaled
            <= usize::MAX - c.removed && c.equaled <= usize::MAX - c.inserted
    }

    /// Applies one step of the script.
    pub fn apply(&mut self, op: DiffOp)
        requires
            old(self).wf(),
            step_ok(old(self).model(), op),
        ensures
            final(self).wf(),
            final(self).model() == step(old(self).model(), op),
    {
        match op {
            DiffOp::Equal(o, _, l) => self.equal(o, l),
            DiffOp::Delete(o, l, _) => self.delete(o, l),
            DiffOp::Insert(o, _, l) => self.insert(o, l),
            DiffOp::Replace(o, ol, _, nl) => self.replace(o, ol, nl),
            DiffOp::Finish => self.finish(),
        }
    }
}

/// The hunk headers of an edit script; `Err` at the first step that would leave
/// the range of `usize`.
pub fn process_script(ops: &Vec<DiffOp>) -> (r: Result<Vec<String>, DiffError>)
    ensures
        r is Ok <==> script_ok(ops@),
        r matches Ok(v) ==> views(v@) == run(ops@, ops@.len()).result,
{
    let mut p = Processor::new();
    let mut k: usize = 0;
    while k < ops.len()
        invariant
            k <= ops.len(),
            p.wf(),
            p.model() == run(ops@, k as nat),
            forall|j: nat| j < k ==> step_ok(#[trigger] run(ops@, j), ops@[j as int]),
        decreases ops.len() - k,
    {
        if !p.can_step(ops[k]) {
            assert(!step_ok(run(ops@, k as nat), ops@[k as int]));
            assert(!script_ok(ops@));
            return Err(DiffError::PositionOutOfRange);
        }
        p.apply(ops[k]);
        k = k + 1;
    }
    Ok(p.result())
}

/// The hunk headers of the line diff of two texts (lines as `str::lines` splits them).
pub open spec fn diff_outcome(text1: Seq<char>, text2: Seq<char>) -> Result<Seq<Seq<char>>, DiffError> {
    let ops = myers_script(lines(text1), lines(text2));
    if script_ok(ops) {
        Ok(run(ops, ops.len()).result)
    } else {
        Err(DiffError::PositionOutOfRange)
    }
}

/// A line is a hunk header `-a,b +c,d`.
pub open spec fn is_hunk_header(line: Seq<char>) -> bool {
    exists|a: nat, b: nat, c: nat, d: nat| line == #[trigger] hunk_header(a, b, c, d)
}

/// Running a script never collects context lines, and reports only hunk headers.
proof fn lemma_run_hunk_headers(ops: Seq<DiffOp>, n: nat)
    ensures
        run(ops, n).context.data.len() == 0,
        forall|i: int|
            0 <= i < run(ops, n).result.len() ==> is_hunk_header(#[trigger] run(ops, n).result[i]),
    decreases n,
{
    if n > 0 && n <= ops.len() {
        lemma_run_hunk_headers(ops, (n - 1) as nat);
        let p = run(ops, (n - 1) as nat);
        let q = run(ops, n);
        assert(q == step(p, ops[n - 1]));
        assert forall|c: ContextModel, removed: nat, inserted: nat, i: int|
            c.data.len() == 0 && 0 <= i < context_lines(c, removed, inserted).len() implies is_hunk_header(
            #[trigger] context_lines(c, removed, inserted)[i],
        ) by {
            let s = c.start->0;
            let h = hunk_header(
                shown_start(s),
                c.equaled + c.removed,
                (shown_start(s) + inserted - removed) as nat,
                c.equaled + c.inserted,
            );
            assert(c.data =~= Seq::<Seq<char>>::empty());
            assert(seq![h] + c.data =~= seq![h]);
            assert(context_lines(c, removed, inserted)[i] == h);
        }
        assert forall|i: int| 0 <= i < q.result.len() implies is_hunk_header(#[trigger] q.result[i]) by {
            if i >= p.result.len() {
                match ops[n - 1] {
                    DiffOp::Equal(o, _, l) => {
                        let c = with_start(p.context, o as nat);
                        assert(q.result[i] == context_lines(c, p.removed, p.inserted)[i - p.result.len()]);
                    },
                    DiffOp::Finish => {
                        assert(q.result[i] == context_lines(p.context, p.removed, p.inserted)[i
                            - p.result.len()]);
                    },
                    _ => {},
                }
            } else {
                assert(q.result[i] == p.result[i]);
            }
        }
    }
}

/// A hunk header whose new side is no longer than its old side.
pub open spec fn shrinking_hunk(line: Seq<char>) -> bool {
    exists|a: nat, b: nat, c: nat, d: nat| line == #[trigger] hunk_header(a, b, c, d) && d <= b
}

/// A script that only keeps and deletes lines (no insertion, no replacement) reports
/// hunks whose new side is never longer than their old side: deleting lines never
/// counts as inserting them.
pub proof fn lemma_deletions_only(ops: Seq<DiffOp>, n: nat)
    requires
        forall|i: int| 0 <= i < ops.len() ==> !((#[trigger] ops[i]) is Insert || ops[i] is Replace),
    ensures
        run(ops, n).context.inserted == 0,
        run(ops, n).context.data.len() == 0,
        forall|i: int|
            0 <= i < run(ops, n).result.len() ==> shrinking_hunk(#[trigger] run(ops, n).result[i]),
    decreases n,
{
    if n > 0 && n <= ops.len() {
        lemma_deletions_only(ops, (n - 1) as nat);
        let p = run(ops, (n - 1) as nat);
        let q = run(ops, n);
        assert(q == step(p, ops[n - 1]));
        let op = ops[n - 1];
        assert(!(op is Insert || op is Replace));
        assert forall|c: ContextModel, removed: nat, inserted: nat, i: int|
            c.data.len() == 0 && c.inserted == 0 && 0 <= i < context_lines(c, removed, inserted).len()
                implies shrinking_hunk(#[trigger] context_lines(c, removed, inserted)[i]) by {
            let s = c.start->0;
            let h = hunk_header(
                shown_start(s),
                c.equaled + c.removed,
                (shown_start(s) + inserted - removed) as nat,
                c.equaled + c.inserted,
            );
            assert(c.data =~= Seq::<Seq<char>>::empty());
            assert(seq![h] + c.data =~= seq![h]);
            assert(context_lines(c, removed, inserted)[i] == h);
        }
        assert forall|i: int| 0 <= i < q.result.len() implies shrinking_hunk(#[trigger] q.result[i]) by {
            if i >= p.result.len() {
                match op {
                    DiffOp::Equal(o, _, l) => {
                        let c = with_start(p.context, o as nat);
                        assert(q.result[i] == context_lines(c, p.removed, p.inserted)[i - p.result.len()]);
                    },
                    DiffOp::Finish => {
                        assert(q.result[i] == context_lines(p.context, p.removed, p.inserted)[i
                            - p.result.len()]);
                    },
                    _ => {},
                }
            } else {
                assert(q.result[i] == p.result[i]);
            }
        }
    }
}

/// Running never drops a reported line.
proof fn lemma_run_grows(ops: Seq<DiffOp>, n: nat)
    requires
        0 < n <= ops.len(),
    ensures
        run(ops, (n - 1) as nat).result.len() <= run(ops, n).result.len(),
{
}

/// Once a step changes lines, the processor has either reported a hunk or holds a
/// changed context with a start.
proof fn lemma_change_pending(ops: Seq<DiffOp>, k: nat, n: nat)
    requires
        k < n <= ops.len(),
        is_change(ops[k as int]),
    ensures
        run(ops, n).result.len() > 0 || (run(ops, n).context.changed
            && run(ops, n).context.start is Some),
    decreases n,
{
    let p = run(ops, (n - 1) as nat);
    assert(run(ops, n) == step(p, ops[n - 1]));
    if n - 1 > k {
        lemma_change_pending(ops, k, (n - 1) as nat);
        lemma_run_grows(ops, n);
        match ops[n - 1] {
            DiffOp::Equal(o, _, l) => {
                let c = with_start(p.context, o as nat);
                if c.changed && l > 0 {
                    assert(context_lines(c, p.removed, p.inserted).len() > 0);
                }
            },
            DiffOp::Finish => {
                if p.context.changed && p.context.start is Some {
                    assert(context_lines(p.context, p.removed, p.inserted).len() > 0);
                }
            },
            _ => {},
        }
    }
}

/// A script that changes lines and ends with `Finish` reports at least one hunk.
proof fn lemma_change_reported(ops: Seq<DiffOp>)
    requires
        ops.len() > 0,
        ops.last() == DiffOp::Finish,
        exists|i: int| 0 <= i < ops.len() && is_change(#[trigger] ops[i]),
    ensures
        run(ops, ops.len()).result.len() > 0,
{
    let k = choose|i: int| 0 <= i < ops.len() && is_change(#[trigger] ops[i]);
    let n = ops.len();
    assert(k < n - 1);
    lemma_change_pending(ops, k as nat, (n - 1) as nat);
    let p = run(ops, (n - 1) as nat);
    assert(run(ops, n) == step(p, ops[n - 1]));
    if p.context.changed && p.context.start is Some {
        assert(context_lines(p.context, p.removed, p.inserted).len() > 0);
    }
}

/// The script of two equal sequences of lines runs without overflow and reports no hunk.
proof fn lemma_identical_script(n: nat)
    requires
        n <= usize::MAX,
    ensures
        script_ok(identical_script(n)),
        run(identical_script(n), identical_script(n).len()).result == Seq::<Seq<char>>::empty(),
{
    let ops = identical_script(n);
    if n == 0 {
        assert(run(ops, 0) == initial_processor());
        assert(run(ops, 1) == step(initial_processor(), DiffOp::Finish));
        assert forall|k: nat| k < ops.len() implies step_ok(#[trigger] run(ops, k), ops[k as int]) by {
            assert(k == 0);
        }
    } else {
        let p0 = initial_processor();
        let p1 = step_equal(p0, 0, n);
        assert(run(ops, 0) == p0);
        assert(run(ops, 1) == p1);
        assert(p1.context.changed == false);
        assert(p1.result == Seq::<Seq<char>>::empty());
        assert(run(ops, 2) == step_finish(p1));
        assert(step_equal_ok(p0, 0, n));
        assert(step_ok(p1, DiffOp::Finish));
        assert forall|k: nat| k < ops.len() implies step_ok(#[trigger] run(ops, k), ops[k as int]) by {
            assert(k == 0 || k == 1);
        }
        assert(step_finish(p1).result =~= Seq::<Seq<char>>::empty());
    }
}

/// The hunk headers of the line diff of two texts; a text compared with itself has none.
pub fn diff(text1: &str, text2: &str) -> (r: Result<Vec<String>, DiffError>)
    ensures
        r is Ok <==> diff_outcome(text1@, text2@) is Ok,
        r matches Ok(v) ==> diff_outcome(text1@, text2@) == Ok::<Seq<Seq<char>>, DiffError>(views(v@)),
        text1@ == text2@ ==> (r matches Ok(v) && v@.len() == 0),
        r matches Ok(v) ==> forall|i: int| 0 <= i < v@.len() ==> is_hunk_header(#[trigger] v@[i]@),
        r matches Ok(v) ==> (v@.len() == 0 <==> lines(text1@) == lines(text2@)),
{
    let a = lines_exec(&chars_of(text1));
    let b = lines_exec(&chars_of(text2));
    let ops = record_myers_script(&a, &b);
    let n_lines = a.len();
    proof {
        if text1@ == text2@ {
            lemma_identical_script(n_lines as nat);
        }
        lemma_run_hunk_headers(ops@, ops@.len());
        if lines(text1@) != lines(text2@) {
            lemma_change_reported(ops@);
        } else {
            lemma_identical_script(n_lines as nat);
        }
    }
    let r = process_script(&ops);
    proof {
        if let Ok(v) = &r {
            assert(views(v@) == run(ops@, ops@.len()).result);
            assert forall|i: int| 0 <= i < v@.len() implies is_hunk_header(#[trigger] v@[i]@) by {
                assert(views(v@)[i] == v@[i]@);
            }
        }
    }
    r
}

} // verus!
