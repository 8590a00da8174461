use vstd::prelude::*;

use std::collections::VecDeque;

use crate::unit::{Unit, UnitCommand, UnitFile};
use crate::value::{
    lemma_merge_well_formed, merge_spec, merge_values, models, well_formed, Value, ValueModel,
};

verus! {

broadcast use vstd::seq::group_seq_axioms;

/// Why a pipeline run fails.
#[derive(Debug, PartialEq, Eq, Clone, Copy)]
pub enum PipelineError {
    /// A document does not match its format or hint.
    Decode,
    /// A command got values of the wrong shape or number.
    Arity,
    /// A script failed, or handed back what has no document value.
    Script,
    /// A value cannot be written in the output format.
    Encode,
    /// An output with a fixed document count ran out of values.
    StreamUnderflow,
    /// Values or units are left once the outputs are written.
    LeftoverState,
}

/// Whether every value is an array.
pub open spec fn all_arrays(s: Seq<ValueModel>) -> bool {
    forall|i: int| 0 <= i < s.len() ==> #[trigger] s[i] is Array
}

/// The elements of the arrays, in order.
pub open spec fn flatten_arrays(s: Seq<ValueModel>) -> Seq<ValueModel>
    decreases s.len(),
{
    if s.len() == 0 {
        Seq::empty()
    } else {
        flatten_arrays(s.drop_last()) + match s.last() {
            ValueModel::Array(a) => a,
            _ => Seq::empty(),
        }
    }
}

/// The values folded from the left through `merge_spec`.
pub open spec fn merge_all_spec(s: Seq<ValueModel>, depth: int) -> ValueModel
    decreases s.len(),
{
    if s.len() <= 1 {
        if s.len() == 1 { s[0] } else { ValueModel::Nil }
    } else {
        merge_spec(merge_all_spec(s.drop_last(), depth), s.last(), depth)
    }
}

/// Folding well-formed values through the merge gives a well-formed value.
pub proof fn lemma_merge_all_well_formed(s: Seq<ValueModel>, depth: int)
    requires
        forall|i: int| 0 <= i < s.len() ==> well_formed(#[trigger] s[i]),
    ensures
        well_formed(merge_all_spec(s, depth)),
    decreases s.len(),
{
    if s.len() > 1 {
        lemma_merge_all_well_formed(s.drop_last(), depth);
        lemma_merge_well_formed(merge_all_spec(s.drop_last(), depth), s.last(), depth);
    } else if s.len() == 0 {
        assert(well_formed(ValueModel::Nil));
    }
}

/// The view of a queue as document values.
pub open spec fn queue_models(q: VecDeque<Value>) -> Seq<ValueModel> {
    models(q@)
}

fn is_array(v: &Value) -> (r: bool)
    ensures
        r == (v@ is Array),
{
    match v {
        Value::Array(_) => true,
        _ => false,
    }
}

/// Whether every value of the queue is an array.
fn queue_all_arrays(queue: &VecDeque<Value>) -> (r: bool)
    ensures
        r == all_arrays(queue_models(*queue)),
{
    let ghost m = queue_models(*queue);
    let mut i: usize = 0;
    while i < queue.len()
        invariant
            i <= queue@.len(),
            m == queue_models(*queue),
            forall|j: int| 0 <= j < i ==> #[trigger] m[j] is Array,
        decreases queue@.len() - i,
    {
        proof {
            assert(m[i as int] == queue@[i as int]@);
        }
        if !is_array(&queue[i]) {
            return false;
        }
        i += 1;
    }
    true
}

/// Takes every value out of the queue, in order, and hands back the
/// elements of those that are arrays, in order.
fn drain_elements(queue: &mut VecDeque<Value>) -> (r: Vec<Value>)
    ensures
        models(r@) == flatten_arrays(queue_models(*old(queue))),
        final(queue)@.len() == 0,
{
    let ghost m = queue_models(*queue);
    let n = queue.len();
    let mut out: Vec<Value> = Vec::new();
    let mut i: usize = 0;
    while queue.len() > 0
        invariant
            i + queue@.len() == n,
            m.len() == n,
            forall|j: int| 0 <= j < queue@.len() ==> #[trigger] queue@[j]@ == m[i + j],
            models(out@) == flatten_arrays(m.subrange(0, i as int)),
        decreases queue@.len(),
    {
        let ghost old_out = models(out@);
        let ghost q0 = queue@;
        let v = queue.pop_front().unwrap();
        proof {
            assert(v@ == m[i as int]);
            assert(m.subrange(0, i + 1).drop_last() =~= m.subrange(0, i as int));
            assert(m.subrange(0, i + 1).last() == m[i as int]);
            assert forall|j: int| 0 <= j < queue@.len() implies #[trigger] queue@[j]@ == m[i + 1
                + j] by {
                assert(queue@[j] == q0[j + 1]);
            }
        }
        match v {
            Value::Array(mut a) => {
                let ghost am = models(a@);
                out.append(&mut a);
                proof {
                    assert(models(out@) =~= old_out + am);
                }
            },
            _ => {},
        }
        i += 1;
    }
    proof {
        assert(m.subrange(0, n as int) =~= m);
    }
    out
}

/// `Concat`: every queued value must be an array; the queue becomes one
/// array of all their elements, in order. Otherwise the queue is kept and
/// the result is an arity error.
pub fn concat_arrays(queue: &mut VecDeque<Value>) -> (r: Result<(), PipelineError>)
    ensures
        r is Ok <==> all_arrays(queue_models(*old(queue))),
        r is Ok ==> queue_models(*final(queue)) == seq![
            ValueModel::Array(flatten_arrays(queue_models(*old(queue)))),
        ],
        r is Err ==> r == Err::<(), _>(PipelineError::Arity) && final(queue)@ == old(queue)@,
{
    if !queue_all_arrays(queue) {
        return Err(PipelineError::Arity);
    }
    let elements = drain_elements(queue);
    queue.push_back(Value::Array(elements));
    proof {
        assert(queue_models(*queue) =~= seq![
            ValueModel::Array(flatten_arrays(queue_models(*old(queue)))),
        ]);
    }
    Ok(())
}

/// `Unpack`: every queued value must be an array; the queue becomes the
/// elements of all of them, in order. Otherwise the queue is kept and the
/// result is an arity error.
pub fn unpack(queue: &mut VecDeque<Value>) -> (r: Result<(), PipelineError>)
    ensures
        r is Ok <==> all_arrays(queue_models(*old(queue))),
        r is Ok ==> queue_models(*final(queue)) == flatten_arrays(queue_models(*old(queue))),
        r is Err ==> r == Err::<(), _>(PipelineError::Arity) && final(queue)@ == old(queue)@,
{
    if !queue_all_arrays(queue) {
        return Err(PipelineError::Arity);
    }
    let elements = drain_elements(queue);
    let ghost target = models(elements@);
    let mut i: usize = 0;
    while i < elements.len()
        invariant
            i <= elements@.len(),
            target == models(elements@),
            queue_models(*queue) == target.subrange(0, i as int),
        decreases elements@.len() - i,
    {
        let ghost q0 = queue@;
        let x = elements[i].duplicate();
        queue.push_back(x);
        proof {
            assert(models(q0).len() == q0.len());
            assert(q0.len() == i);
            assert(queue@ =~= q0.push(x));
            assert forall|j: int| 0 <= j <= i implies #[trigger] queue_models(*queue)[j]
                == target[j] by {
                if j < i {
                    assert(queue_models(*queue)[j] == queue@[j]@);
                    assert(models(q0)[j] == q0[j]@);
                } else {
                    assert(queue_models(*queue)[j] == queue@[j]@);
                }
            }
            assert(queue_models(*queue) =~= target.subrange(0, i + 1));
        }
        i += 1;
    }
    proof {
        assert(target.subrange(0, elements@.len() as int) =~= target);
    }
    Ok(())
}

/// `Pack`: the queue becomes one array of all its values, in order.
pub fn pack(queue: &mut VecDeque<Value>)
    ensures
        queue_models(*final(queue)) == seq![ValueModel::Array(queue_models(*old(queue)))],
{
    let ghost m = queue_models(*queue);
    let ghost n = queue@.len();
    let mut out: Vec<Value> = Vec::new();
    while queue.len() > 0
        invariant
            out@.len() + queue@.len() == n,
            m.len() == n,
            forall|j: int| 0 <= j < queue@.len() ==> #[trigger] queue@[j]@ == m[out@.len() + j],
            models(out@) == m.subrange(0, out@.len() as int),
        decreases queue@.len(),
    {
        let ghost q0 = queue@;
        let ghost k = out@.len();
        let v = queue.pop_front().unwrap();
        proof {
            assert(v@ == m[k as int]);
            assert forall|j: int| 0 <= j < queue@.len() implies #[trigger] queue@[j]@ == m[k + 1
                + j] by {
                assert(queue@[j] == q0[j + 1]);
            }
        }
        out.push(v);
        proof {
            assert(models(out@) =~= m.subrange(0, out@.len() as int));
        }
    }
    proof {
        assert(m.subrange(0, n as int) =~= m);
    }
    queue.push_back(Value::Array(out));
    proof {
        assert(queue_models(*queue) =~= seq![ValueModel::Array(m)]);
    }
}

/// `Merge`: the queued values are folded from the left through the merge,
/// with the given depth or no bound; the queue becomes the one result. An
/// empty queue is an arity error, and is kept.
pub fn merge_queue(queue: &mut VecDeque<Value>, depth: Option<isize>) -> (r: Result<
    (),
    PipelineError,
>)
    ensures
        r is Ok <==> queue_models(*old(queue)).len() > 0,
        r is Ok ==> queue_models(*final(queue)) == seq![
            merge_all_spec(
                queue_models(*old(queue)),
                match depth {
                    Some(d) => d as int,
                    None => -1,
                },
            ),
        ],
        r is Err ==> r == Err::<(), _>(PipelineError::Arity) && final(queue)@ == old(queue)@,
        r is Ok && (forall|i: int|
            0 <= i < old(queue)@.len() ==> well_formed(#[trigger] old(queue)@[i]@)) ==> well_formed(
            final(queue)@[0]@,
        ),
{
    let d: isize = match depth {
        Some(d) => d,
        None => -1,
    };
    let ghost m = queue_models(*queue);
    let n = queue.len();
    if n == 0 {
        return Err(PipelineError::Arity);
    }
    let ghost q_start = queue@;
    let mut acc = queue.pop_front().unwrap();
    proof {
        assert forall|j: int| 0 <= j < queue@.len() implies #[trigger] queue@[j]@ == m[1 + j] by {
            assert(queue@[j] == q_start[j + 1]);
        }
    }
    proof {
        assert(m.subrange(0, 1) =~= seq![m[0]]);
    }
    let mut k: usize = 1;
    while queue.len() > 0
        invariant
            k + queue@.len() == n,
            1 <= k <= n,
            m.len() == n,
            forall|j: int| 0 <= j < queue@.len() ==> #[trigger] queue@[j]@ == m[k + j],
            acc@ == merge_all_spec(m.subrange(0, k as int), d as int),
        decreases queue@.len(),
    {
        let ghost q0 = queue@;
        let right = queue.pop_front().unwrap();
        proof {
            assert(right@ == m[k as int]);
            assert forall|j: int| 0 <= j < queue@.len() implies #[trigger] queue@[j]@ == m[k + 1
                + j] by {
                assert(queue@[j] == q0[j + 1]);
            }
            assert(m.subrange(0, k + 1).drop_last() =~= m.subrange(0, k as int));
            assert(m.subrange(0, k + 1).last() == m[k as int]);
        }
        acc = merge_values(&acc, &right, d);
        k += 1;
    }
    proof {
        assert(m.subrange(0, n as int) =~= m);
    }
    queue.push_back(acc);
    proof {
        assert(queue_models(*queue) =~= seq![merge_all_spec(m, d as int)]);
        if forall|i: int| 0 <= i < old(queue)@.len() ==> well_formed(#[trigger] old(queue)@[i]@) {
            assert forall|i: int| 0 <= i < m.len() implies well_formed(#[trigger] m[i]) by {
                assert(m[i] == old(queue)@[i]@);
            }
            lemma_merge_all_well_formed(m, d as int);
            assert(queue@[0]@ == queue_models(*queue)[0]);
        }
    }
    Ok(())
}


/// Packing a queue and then unpacking it gives the queue back: the packed
/// queue holds only an array, and its elements are the queue.
pub proof fn lemma_pack_then_unpack(s: Seq<ValueModel>)
    ensures
        all_arrays(seq![ValueModel::Array(s)]),
        flatten_arrays(seq![ValueModel::Array(s)]) == s,
{
    let p = seq![ValueModel::Array(s)];
    assert(p.drop_last() =~= Seq::<ValueModel>::empty());
    assert(flatten_arrays(p.drop_last()) == Seq::<ValueModel>::empty());
    assert(flatten_arrays(p) =~= s);
}

/// How many values an output takes from the queue: one where no count is
/// set, the count where it is not negative, and all that are left where it
/// is negative; `None` where too few are left.
pub open spec fn take_count_spec(stream: Option<isize>, available: nat) -> Option<nat> {
    match stream {
        None => if available >= 1 {
            Some(1)
        } else {
            None
        },
        Some(n) => if n < 0 {
            Some(available)
        } else if n <= available {
            Some(n as nat)
        } else {
            None
        },
    }
}

/// How many values an output takes; see `take_count_spec`. Too few values
/// is a stream underflow.
pub fn take_count(stream: Option<isize>, available: usize) -> (r: Result<usize, PipelineError>)
    ensures
        match r {
            Ok(n) => take_count_spec(stream, available as nat) == Some(n as nat),
            Err(e) => take_count_spec(stream, available as nat) is None && e
                == PipelineError::StreamUnderflow,
        },
{
    match stream {
        None => if available >= 1 {
            Ok(1)
        } else {
            Err(PipelineError::StreamUnderflow)
        },
        Some(n) => if n < 0 {
            Ok(available)
        } else if n as usize <= available {
            Ok(n as usize)
        } else {
            Err(PipelineError::StreamUnderflow)
        },
    }
}

/// Output text after one more encoded document: the document, then `...`
/// and a line break where `dots` is set, then a line break where `eol` is
/// set and the text does not already end with one.
pub open spec fn output_after(out: Seq<char>, encoded: Seq<char>, dots: bool, eol: bool) -> Seq<char> {
    let t = out + encoded + if dots { "...\n"@ } else { Seq::empty() };
    if eol && !(t.len() > 0 && t.last() == '\n') {
        t.push('\n')
    } else {
        t
    }
}

/// Appends one encoded document to the output text; see `output_after`.
pub fn append_document(out: &mut String, encoded: &str, dots: bool, eol: bool)
    ensures
        final(out)@ == output_after(old(out)@, encoded@, dots, eol),
{
    let ends_with_newline = if dots {
        true
    } else if !encoded.is_empty() {
        let cs = crate::text::chars_of(encoded);
        cs[cs.len() - 1] == '\n'
    } else {
        let n = out.unicode_len();
        n > 0 && out.as_str().get_char(n - 1) == '\n'
    };
    out.append(encoded);
    if dots {
        out.append("...\n");
    }
    proof {
        reveal_strlit("...\n");
        let t = old(out)@ + encoded@ + if dots { "...\n"@ } else { Seq::empty() };
        assert(out@ =~= t);
        assert(ends_with_newline == (t.len() > 0 && t.last() == '\n'));
    }
    if eol && !ends_with_newline {
        crate::text::push_char(out, '\n');
    }
}

/// Whether a unit is a source: an inline document or a file.
pub open spec fn is_source(u: Unit) -> bool {
    u is Document || u is File
}

/// The phase that a pipeline is in.
#[derive(Debug, PartialEq, Eq, Clone, Copy)]
pub enum Phase {
    Input,
    Command,
    Output,
}

/// What the caller of `Pipeline::step` has to do next.
#[derive(Debug)]
pub enum Step {
    /// Nothing: call `step` again.
    Continue,
    /// Decode this source and hand its values to `push_values`.
    Read(Unit),
    /// Run the command's script with these inputs and hand its outputs to
    /// `push_values`.
    Transform { command: UnitCommand, inputs: Vec<Value> },
    /// Render the command's template with these inputs and hand the text to
    /// `push_values` as one string.
    Render { command: UnitCommand, inputs: Vec<Value> },
    /// Encode these values into this file, in order.
    Write { file: UnitFile, values: Vec<Value> },
    /// Stop: the inputs were all read without error.
    Check,
    /// Stop: everything was read, processed and written.
    Done,
}

/// A pipeline run: the units still to go, the value queue, and the phase.
pub struct Pipeline {
    pub units: VecDeque<Unit>,
    pub values: VecDeque<Value>,
    pub phase: Phase,
}

/// Takes the first `n` values of the queue, in order.
fn take_front(queue: &mut VecDeque<Value>, n: usize) -> (r: Vec<Value>)
    requires
        n <= old(queue)@.len(),
    ensures
        r@ == old(queue)@.subrange(0, n as int),
        final(queue)@ == old(queue)@.subrange(n as int, old(queue)@.len() as int),
{
    let ghost q = queue@;
    let mut out: Vec<Value> = Vec::new();
    let mut i: usize = 0;
    while i < n
        invariant
            i <= n <= q.len(),
            out@ == q.subrange(0, i as int),
            queue@ == q.subrange(i as int, q.len() as int),
        decreases n - i,
    {
        let v = queue.pop_front().unwrap();
        out.push(v);
        proof {
            assert(out@ =~= q.subrange(0, i + 1));
            assert(queue@ =~= q.subrange(i + 1, q.len() as int));
        }
        i += 1;
    }
    out
}

impl Pipeline {
    /// A pipeline over the given units, with an empty queue, reading inputs.
    pub fn new(units: VecDeque<Unit>) -> (r: Pipeline)
        ensures
            r.units@ == units@,
            r.values@.len() == 0,
            r.phase == Phase::Input,
    {
        Pipeline { units, values: VecDeque::new(), phase: Phase::Input }
    }

    /// Appends values at the back of the queue.
    pub fn push_values(&mut self, values: Vec<Value>)
        ensures
            queue_models(final(self).values) == queue_models(old(self).values) + models(values@),
            final(self).units@ == old(self).units@,
            final(self).phase == old(self).phase,
    {
        let ghost start = queue_models(self.values);
        let ghost m = models(values@);
        let mut i: usize = 0;
        while i < values.len()
            invariant
                i <= values@.len(),
                m == models(values@),
                queue_models(self.values) == start + m.subrange(0, i as int),
                self.units@ == old(self).units@,
                self.phase == old(self).phase,
            decreases values@.len() - i,
        {
            let ghost before = self.values@;
            let v = values[i].duplicate();
            self.values.push_back(v);
            proof {
                assert(self.values@ =~= before.push(v));
                assert(models(before).len() == before.len());
                assert forall|j: int| 0 <= j < self.values@.len() implies #[trigger] queue_models(
                    self.values,
                )[j] == (start + m.subrange(0, i + 1))[j] by {
                    assert(queue_models(self.values)[j] == self.values@[j]@);
                    if j < before.len() {
                        assert(models(before)[j] == before[j]@);
                    }
                }
                assert(queue_models(self.values) =~= start + m.subrange(0, i + 1));
            }
            i += 1;
        }
        proof {
            assert(m.subrange(0, values@.len() as int) =~= m);
        }
    }

    /// Takes one step: one unit, or one change of phase.
    ///
    /// Reading inputs, a source unit is handed out to be decoded; any other
    /// unit ends the phase. Running commands, `Copy` ends the phase, `Check`
    /// stops, `Concat`, `Merge`, `Pack` and `Unpack` change the queue, and
    /// `Render` and `Transform` hand out the whole queue as the script's
    /// inputs; any other unit ends the phase. Writing outputs, a file unit
    /// takes its count of values; once no file unit is next, the run is done
    /// if no value and no unit is left.
    pub fn step(&mut self) -> (r: Result<Step, PipelineError>)
        ensures
            old(self).phase == Phase::Input ==> {
                if old(self).units@.len() > 0 && is_source(old(self).units@[0]) {
                    &&& r matches Ok(Step::Read(u)) && u == old(self).units@[0]
                    &&& final(self).units@ == old(self).units@.drop_first()
                    &&& final(self).values@ == old(self).values@
                    &&& final(self).phase == Phase::Input
                } else {
                    &&& r matches Ok(Step::Continue)
                    &&& final(self).units@ == old(self).units@
                    &&& final(self).values@ == old(self).values@
                    &&& final(self).phase == Phase::Command
                }
            },
            old(self).phase == Phase::Command ==> {
                if old(self).units@.len() == 0 || is_source(old(self).units@[0]) {
                    &&& r matches Ok(Step::Continue)
                    &&& final(self).units@ == old(self).units@
                    &&& final(self).values@ == old(self).values@
                    &&& final(self).phase == Phase::Output
                } else {
                    let u = old(self).units@[0];
                    let q = queue_models(old(self).values);
                    &&& final(self).units@ == old(self).units@.drop_first()
                    &&& match u {
                        Unit::Copy => r matches Ok(Step::Continue) && final(self).phase
                            == Phase::Output && final(self).values@ == old(self).values@,
                        Unit::Check => r matches Ok(Step::Check) && final(self).values@ == old(self).values@,
                        Unit::Concat => if all_arrays(q) {
                            r matches Ok(Step::Continue) && queue_models(final(self).values) == seq![
                                ValueModel::Array(flatten_arrays(q)),
                            ]
                        } else {
                            r == Err::<Step, _>(PipelineError::Arity)
                        },
                        Unit::Unpack => if all_arrays(q) {
                            r matches Ok(Step::Continue) && queue_models(final(self).values)
                                == flatten_arrays(q)
                        } else {
                            r == Err::<Step, _>(PipelineError::Arity)
                        },
                        Unit::Pack => r matches Ok(Step::Continue) && queue_models(final(self).values) == seq![ValueModel::Array(q)],
                        Unit::Merge(c) => if q.len() > 0 {
                            r matches Ok(Step::Continue) && queue_models(final(self).values)
                                == seq![
                                merge_all_spec(
                                    q,
                                    match c.depth {
                                        Some(d) => d as int,
                                        None => -1,
                                    },
                                ),
                            ]
                        } else {
                            r == Err::<Step, _>(PipelineError::Arity)
                        },
                        Unit::Render(c) => r matches Ok(Step::Render { command, inputs }) && command
                            == c && inputs@ == old(self).values@ && final(self).values@.len() == 0,
                        Unit::Transform(c) => r matches Ok(Step::Transform { command, inputs })
                            && command == c && inputs@ == old(self).values@ && final(self).values@.len() == 0,
                        _ => true,
                    }
                    &&& r matches Ok(Step::Continue) ==> (final(self).phase == Phase::Output
                        <==> u is Copy)
                }
            },
            old(self).phase == Phase::Output ==> {
                if old(self).units@.len() > 0 && old(self).units@[0] is File {
                    let f = old(self).units@[0]->File_0;
                    let q = old(self).values@;
                    match take_count_spec(f.stream, q.len()) {
                        Some(n) => {
                            &&& r matches Ok(Step::Write { file, values }) && file == f
                                && values@ == q.subrange(0, n as int)
                            &&& final(self).values@ == q.subrange(n as int, q.len() as int)
                            &&& final(self).units@ == old(self).units@.drop_first()
                        },
                        None => r == Err::<Step, _>(PipelineError::StreamUnderflow),
                    }
                } else if old(self).units@.len() == 0 && old(self).values@.len() == 0 {
                    r matches Ok(Step::Done)
                } else {
                    r == Err::<Step, _>(PipelineError::LeftoverState)
                }
            },
            final(self).phase == Phase::Input ==> old(self).phase == Phase::Input,
    {
        match self.phase {
            Phase::Input => {
                let source = self.units.len() > 0 && match &self.units[0] {
                    Unit::Document(_) | Unit::File(_) => true,
                    _ => false,
                };
                if source {
                    let u = self.units.pop_front().unwrap();
                    Ok(Step::Read(u))
                } else {
                    self.phase = Phase::Command;
                    Ok(Step::Continue)
                }
            },
            Phase::Command => {
                let command = self.units.len() > 0 && match &self.units[0] {
                    Unit::Document(_) | Unit::File(_) => false,
                    _ => true,
                };
                if !command {
                    self.phase = Phase::Output;
                    return Ok(Step::Continue);
                }
                let u = self.units.pop_front().unwrap();
                match u {
                    Unit::Copy => {
                        self.phase = Phase::Output;
                        Ok(Step::Continue)
                    },
                    Unit::Check => Ok(Step::Check),
                    Unit::Concat => {
                        concat_arrays(&mut self.values)?;
                        Ok(Step::Continue)
                    },
                    Unit::Unpack => {
                        unpack(&mut self.values)?;
                        Ok(Step::Continue)
                    },
                    Unit::Pack => {
                        pack(&mut self.values);
                        Ok(Step::Continue)
                    },
                    Unit::Merge(c) => {
                        merge_queue(&mut self.values, c.depth)?;
                        Ok(Step::Continue)
                    },
                    Unit::Render(c) => {
                        let n = self.values.len();
                        let inputs = take_front(&mut self.values, n);
                        proof {
                            assert(inputs@ =~= old(self).values@);
                        }
                        Ok(Step::Render { command: c, inputs })
                    },
                    Unit::Transform(c) => {
                        let n = self.values.len();
                        let inputs = take_front(&mut self.values, n);
                        proof {
                            assert(inputs@ =~= old(self).values@);
                        }
                        Ok(Step::Transform { command: c, inputs })
                    },
                    _ => Ok(Step::Continue),
                }
            },
            Phase::Output => {
                let is_file = self.units.len() > 0 && match &self.units[0] {
                    Unit::File(_) => true,
                    _ => false,
                };
                if is_file {
                    let count = match &self.units[0] {
                        Unit::File(f) => take_count(f.stream, self.values.len())?,
                        _ => 0,
                    };
                    let values = take_front(&mut self.values, count);
                    match self.units.pop_front().unwrap() {
                        Unit::File(file) => Ok(Step::Write { file, values }),
                        _ => Ok(Step::Continue),
                    }
                } else if self.units.len() == 0 && self.values.len() == 0 {
                    Ok(Step::Done)
                } else {
                    Err(PipelineError::LeftoverState)
                }
            },
        }
    }
}

} // verus!
