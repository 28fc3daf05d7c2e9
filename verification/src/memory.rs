//! The mark-sweep garbage collector: tri-color marking over an explicit
//! gray worklist, pruning of the weak intern table, then the sweep.
use vstd::prelude::*;

use crate::heap::{lemma_wf_same_objects, obj_points_to, obj_size, Heap, Obj};
use crate::value::Value;
use crate::vm::Vm;

verus! {

/// Whether a value's object reference, if any, is marked.
pub open spec fn value_marked(v: Value, marks: Seq<bool>) -> bool {
    match v {
        Value::Object(i) => 0 <= i < marks.len() && marks[i as int],
        _ => true,
    }
}

/// Whether every object one object references directly is marked.
pub open spec fn obj_refs_marked(o: Obj, marks: Seq<bool>) -> bool {
    match o {
        Obj::Str(_) => true,
        Obj::Function(f) => {
            &&& (f.name matches Some(n) ==> 0 <= n < marks.len() && marks[n as int])
            &&& forall|c: int|
                0 <= c < f.chunk.constants@.len() ==> value_marked(
                    #[trigger] f.chunk.constants@[c],
                    marks,
                )
        },
        Obj::Closure { function, upvalues } => {
            &&& 0 <= function < marks.len() && marks[function as int]
            &&& forall|u: int|
                0 <= u < upvalues@.len() ==> 0 <= #[trigger] upvalues@[u] < marks.len()
                    && marks[upvalues@[u] as int]
        },
        Obj::Upvalue(st) => match st {
            crate::heap::UpvalueState::Open(_) => true,
            crate::heap::UpvalueState::Closed(v) => value_marked(v, marks),
        },
        Obj::Class { name, methods } => {
            &&& 0 <= name < marks.len() && marks[name as int]
            &&& forall|m: int|
                0 <= m < methods@.len() ==> 0 <= (#[trigger] methods@[m]).0 < marks.len()
                    && marks[methods@[m].0 as int] && 0 <= methods@[m].1 < marks.len()
                    && marks[methods@[m].1 as int]
        },
        Obj::Instance { class, fields } => {
            &&& 0 <= class < marks.len() && marks[class as int]
            &&& forall|m: int|
                0 <= m < fields@.len() ==> 0 <= (#[trigger] fields@[m]).0 < marks.len()
                    && marks[fields@[m].0 as int] && value_marked(fields@[m].1, marks)
        },
        Obj::BoundMethod { receiver, method } => {
            &&& value_marked(receiver, marks)
            &&& 0 <= method < marks.len() && marks[method as int]
        },
    }
}

/// Marking more objects never unmarks a reference.
proof fn lemma_refs_marked_monotone(o: Obj, before: Seq<bool>, after: Seq<bool>)
    requires
        obj_refs_marked(o, before),
        after.len() == before.len(),
        forall|j: int| 0 <= j < before.len() && before[j] ==> after[j],
    ensures
        obj_refs_marked(o, after),
{
    match o {
        Obj::Function(f) => {
            assert forall|c: int| 0 <= c < f.chunk.constants@.len() implies value_marked(
                #[trigger] f.chunk.constants@[c],
                after,
            ) by {
                assert(value_marked(f.chunk.constants@[c], before));
            }
        },
        Obj::Closure { function, upvalues } => {
            assert forall|u: int| 0 <= u < upvalues@.len() implies 0 <= #[trigger] upvalues@[u]
                < after.len() && after[upvalues@[u] as int] by {
                assert(before[upvalues@[u] as int]);
            }
        },
        Obj::Class { name, methods } => {
            assert forall|m: int| 0 <= m < methods@.len() implies 0 <= (#[trigger] methods@[m]).0
                < after.len() && after[methods@[m].0 as int] && 0 <= methods@[m].1 < after.len()
                && after[methods@[m].1 as int] by {
                assert(before[methods@[m].0 as int] && before[methods@[m].1 as int]);
            }
        },
        Obj::Instance { class, fields } => {
            assert forall|m: int| 0 <= m < fields@.len() implies 0 <= (#[trigger] fields@[m]).0
                < after.len() && after[fields@[m].0 as int] && value_marked(
                fields@[m].1,
                after,
            ) by {
                assert(before[fields@[m].0 as int]);
                assert(value_marked(fields@[m].1, before));
            }
        },
        _ => {},
    }
}

/// How many mark bits are still clear: the measure the mark phase shrinks.
pub open spec fn count_false(s: Seq<bool>) -> nat
    decreases s.len(),
{
    if s.len() == 0 {
        0
    } else {
        count_false(s.drop_last()) + if s.last() {
            0nat
        } else {
            1nat
        }
    }
}

/// Setting one clear bit lowers the count by one.
proof fn lemma_count_false_update(s: Seq<bool>, i: int)
    requires
        0 <= i < s.len(),
        !s[i],
    ensures
        count_false(s) >= 1,
        count_false(s.update(i, true)) == count_false(s) - 1,
    decreases s.len(),
{
    let updated = s.update(i, true);
    if i == s.len() - 1 {
        assert(updated.drop_last() =~= s.drop_last());
    } else {
        assert(updated.drop_last() =~= s.drop_last().update(i, true));
        assert(updated.last() == s.last());
        lemma_count_false_update(s.drop_last(), i);
    }
}

/// Whether an object is on the gray worklist.
pub open spec fn in_gray(gray: Seq<usize>, i: int) -> bool {
    exists|k: int| 0 <= k < gray.len() && gray[k] == i
}

/// The garbage collector: the gray worklist of objects that are marked but
/// whose references were not yet traced.
pub struct GarbageCollector {
    pub gray: Vec<usize>,
}

/// The mark phase's invariant over a heap and the worklist: mark bits
/// parallel the slots, only live objects are marked, gray objects are
/// marked, and every marked object off the worklist has all its references
/// marked.
pub open spec fn gc_inv_except(heap: Heap, gray: Seq<usize>, ex: int) -> bool {
    &&& heap.marks@.len() == heap.objects@.len()
    &&& forall|j: int| 0 <= j < heap.marks@.len() && heap.marks@[j] ==> heap.live(j)
    &&& forall|k: int|
        0 <= k < gray.len() ==> 0 <= #[trigger] gray[k] < heap.marks@.len()
            && heap.marks@[gray[k] as int]
    &&& forall|j: int|
        0 <= j < heap.marks@.len() && heap.marks@[j] && !in_gray(gray, j) && j != ex
            ==> obj_refs_marked(#[trigger] heap.obj_at(j), heap.marks@)
}

/// The mark phase's invariant with no exemption.
pub open spec fn gc_inv(heap: Heap, gray: Seq<usize>) -> bool {
    gc_inv_except(heap, gray, -1)
}

impl GarbageCollector {
    /// A collector with an empty worklist.
    pub fn new() -> (r: GarbageCollector)
        ensures
            r.gray@.len() == 0,
    {
        GarbageCollector { gray: Vec::new() }
    }

    /// Marks one object and queues it for tracing; marked objects and
    /// non-objects are left alone.
    fn mark_obj(&mut self, heap: &mut Heap, i: usize, Ghost(ex): Ghost<int>)
        requires
            old(heap).wf(),
            gc_inv_except(*old(heap), old(self).gray@, ex),
            old(heap).live(i as int),
        ensures
            heap_marks_only_changed(*old(heap), *final(heap)),
            final(heap).wf(),
            gc_inv_except(*final(heap), final(self).gray@, ex),
            final(heap).marks@.len() == old(heap).marks@.len(),
            forall|j: int|
                0 <= j < old(heap).marks@.len() && old(heap).marks@[j] ==> final(heap).marks@[j],
            final(heap).marks@[i as int],
            forall|j: int|
                0 <= j < final(heap).marks@.len() && final(heap).marks@[j] ==> old(heap).marks@[j]
                    || j == i as int,
            2 * count_false(final(heap).marks@) + final(self).gray@.len() <= 2 * count_false(
                old(heap).marks@,
            ) + old(self).gray@.len(),
    {
        if heap.marks[i] {
            return ;
        }
        proof {
            lemma_count_false_update(heap.marks@, i as int);
        }
        heap.marks[i] = true;
        self.gray.push(i);
        proof {
            lemma_wf_same_objects(*old(heap), *heap);
            assert forall|j: int|
                0 <= j < heap.marks@.len() && heap.marks@[j] implies heap.live(j) by {
                if j != i {
                    assert(old(heap).marks@[j]);
                    assert(old(heap).live(j));
                }
            }
            assert forall|k: int| 0 <= k < self.gray@.len() implies 0 <= #[trigger] self.gray@[k]
                < heap.marks@.len() && heap.marks@[self.gray@[k] as int] by {
                if k < old(self).gray@.len() {
                    assert(old(heap).marks@[old(self).gray@[k] as int]);
                }
            }
            assert forall|j: int|
                0 <= j < heap.marks@.len() && heap.marks@[j] && !in_gray(self.gray@, j) && j
                    != ex implies obj_refs_marked(#[trigger] heap.obj_at(j), heap.marks@) by {
                assert(j != i) by {
                    if j == i {
                        assert(self.gray@[self.gray@.len() - 1] == i);
                    }
                }
                assert(old(heap).marks@[j]);
                assert(!in_gray(old(self).gray@, j)) by {
                    if in_gray(old(self).gray@, j) {
                        let k = choose|k: int|
                            0 <= k < old(self).gray@.len() && old(self).gray@[k] == j;
                        assert(self.gray@[k] == j);
                    }
                }
                assert(obj_refs_marked(old(heap).obj_at(j), old(heap).marks@));
                lemma_refs_marked_monotone(old(heap).obj_at(j), old(heap).marks@, heap.marks@);
            }
        }
    }

    /// Marks a value's object, if it holds one.
    fn mark_value(&mut self, heap: &mut Heap, v: Value, Ghost(ex): Ghost<int>)
        requires
            old(heap).wf(),
            gc_inv_except(*old(heap), old(self).gray@, ex),
            old(heap).valid_value(v),
        ensures
            heap_marks_only_changed(*old(heap), *final(heap)),
            final(heap).wf(),
            gc_inv_except(*final(heap), final(self).gray@, ex),
            final(heap).marks@.len() == old(heap).marks@.len(),
            forall|j: int|
                0 <= j < old(heap).marks@.len() && old(heap).marks@[j] ==> final(heap).marks@[j],
            value_marked(v, final(heap).marks@),
            forall|j: int|
                0 <= j < final(heap).marks@.len() && final(heap).marks@[j] ==> old(heap).marks@[j]
                    || (match v {
                    Value::Object(x) => j == x as int,
                    _ => false,
                }),
            2 * count_false(final(heap).marks@) + final(self).gray@.len() <= 2 * count_false(
                old(heap).marks@,
            ) + old(self).gray@.len(),
    {
        match v {
            Value::Object(i) => self.mark_obj(heap, i, Ghost(ex)),
            _ => {},
        }
    }
}

/// Only the mark bits differ between the two heaps.
pub open spec fn heap_marks_only_changed(a: Heap, b: Heap) -> bool {
    &&& b.objects == a.objects
    &&& b.strings == a.strings
    &&& b.globals == a.globals
    &&& b.marks@.len() == a.marks@.len()
    &&& b.bytes_allocated == a.bytes_allocated
    &&& b.next_gc == a.next_gc
}

/// Collects every value an object references directly; marking all of them
/// marks all the object's references.
fn collect_refs(heap: &Heap, i: usize) -> (r: Vec<Value>)
    requires
        heap.wf(),
        heap.live(i as int),
    ensures
        forall|k: int| 0 <= k < r@.len() ==> heap.valid_value(#[trigger] r@[k]),
        forall|marks: Seq<bool>|
            marks.len() == heap.objects@.len() && (forall|k: int|
                0 <= k < r@.len() ==> value_marked(#[trigger] r@[k], marks)) ==> obj_refs_marked(
                heap.obj_at(i as int),
                marks,
            ),
        forall|k: int|
            0 <= k < r@.len() ==> (match #[trigger] r@[k] {
                Value::Object(x) => obj_points_to(heap.obj_at(i as int), x as int),
                _ => true,
            }),
{
    proof {
        assert(heap.obj_wf(heap.obj_at(i as int)));
    }
    let mut out: Vec<Value> = Vec::new();
    match &heap.objects[i] {
        Some(Obj::Str(_)) => {},
        Some(Obj::Function(f)) => {
            match f.name {
                Some(n) => {
                    out.push(Value::Object(n));
                },
                None => {},
            }
            let n = f.chunk.constants.len();
            let mut c: usize = 0;
            while c < n
                invariant
                    heap.wf(),
                    heap.live(i as int),
                    heap.obj_at(i as int) matches Obj::Function(f2) && f2 == f,
                    c <= n,
                    n == f.chunk.constants@.len(),
                    forall|k: int| 0 <= k < out@.len() ==> heap.valid_value(#[trigger] out@[k]),
                    f.name matches Some(nm) ==> out@.len() >= 1 && out@[0] == Value::Object(nm),
                    out@.len() == c + if f.name is Some {
                        1int
                    } else {
                        0int
                    },
                    forall|c2: int|
                        0 <= c2 < c ==> out@[c2 + if f.name is Some {
                            1int
                        } else {
                            0int
                        }] == f.chunk.constants@[c2],
                decreases n - c,
            {
                out.push(f.chunk.constants[c]);
                c = c + 1;
            }
            proof {
                assert forall|marks: Seq<bool>|
                    marks.len() == heap.objects@.len() && (forall|k: int|
                        0 <= k < out@.len() ==> value_marked(
                            #[trigger] out@[k],
                            marks,
                        )) implies obj_refs_marked(heap.obj_at(i as int), marks) by {
                    let base: int = if f.name is Some {
                        1int
                    } else {
                        0int
                    };
                    assert forall|c2: int| 0 <= c2 < f.chunk.constants@.len() implies value_marked(
                        #[trigger] f.chunk.constants@[c2],
                        marks,
                    ) by {
                        assert(out@[c2 + base] == f.chunk.constants@[c2]);
                        assert(value_marked(out@[c2 + base], marks));
                    }
                }
                assert forall|k3: int| 0 <= k3 < out@.len() implies (match #[trigger] out@[k3] {
                    Value::Object(x) => obj_points_to(heap.obj_at(i as int), x as int),
                    _ => true,
                }) by {
                    let base: int = if f.name is Some {
                        1int
                    } else {
                        0int
                    };
                    if k3 >= base {
                        assert(out@[k3] == f.chunk.constants@[k3 - base]);
                    }
                }
            }
        },
        Some(Obj::Closure { function, upvalues }) => {
            out.push(Value::Object(*function));
            let n = upvalues.len();
            let mut u: usize = 0;
            while u < n
                invariant
                    heap.wf(),
                    heap.live(i as int),
                    heap.obj_at(i as int) matches Obj::Closure { function: f2, upvalues: ups }
                        && f2 == function && ups == upvalues,
                    u <= n,
                    n == upvalues@.len(),
                    forall|k: int| 0 <= k < out@.len() ==> heap.valid_value(#[trigger] out@[k]),
                    out@.len() == u + 1,
                    out@[0] == Value::Object(*function),
                    forall|u2: int| 0 <= u2 < u ==> out@[u2 + 1] == Value::Object(upvalues@[u2]),
                decreases n - u,
            {
                out.push(Value::Object(upvalues[u]));
                proof {
                    assert(heap.is_upvalue(upvalues@[u as int] as int));
                }
                u = u + 1;
            }
            proof {
                assert forall|marks: Seq<bool>|
                    marks.len() == heap.objects@.len() && (forall|k: int|
                        0 <= k < out@.len() ==> value_marked(
                            #[trigger] out@[k],
                            marks,
                        )) implies obj_refs_marked(heap.obj_at(i as int), marks) by {
                    assert(value_marked(out@[0], marks));
                    assert forall|u2: int| 0 <= u2 < upvalues@.len() implies 0 <= (
                    #[trigger] upvalues@[u2]) < marks.len() && marks[upvalues@[u2] as int] by {
                        assert(out@[u2 + 1] == Value::Object(upvalues@[u2]));
                        assert(value_marked(out@[u2 + 1], marks));
                    }
                }
                assert forall|k3: int| 0 <= k3 < out@.len() implies (match #[trigger] out@[k3] {
                    Value::Object(x) => obj_points_to(heap.obj_at(i as int), x as int),
                    _ => true,
                }) by {
                    if k3 >= 1 {
                        assert(out@[k3] == Value::Object(upvalues@[k3 - 1]));
                    }
                }
            }
        },
        Some(Obj::Upvalue(st)) => {
            match st {
                crate::heap::UpvalueState::Closed(v) => {
                    out.push(*v);
                    proof {
                        assert forall|marks: Seq<bool>|
                            marks.len() == heap.objects@.len() && (forall|k: int|
                                0 <= k < out@.len() ==> value_marked(
                                    #[trigger] out@[k],
                                    marks,
                                )) implies obj_refs_marked(heap.obj_at(i as int), marks) by {
                            assert(value_marked(out@[0], marks));
                        }
                        assert forall|k3: int| 0 <= k3 < out@.len() implies (match #[trigger] out@[k3] {
                            Value::Object(x) => obj_points_to(heap.obj_at(i as int), x as int),
                            _ => true,
                        }) by {
                            assert(out@[k3] == *v);
                        }
                    }
                },
                crate::heap::UpvalueState::Open(_) => {},
            }
        },
        Some(Obj::Class { name, methods }) => {
            out.push(Value::Object(*name));
            let n = methods.len();
            let mut m: usize = 0;
            while m < n
                invariant
                    heap.wf(),
                    heap.live(i as int),
                    heap.obj_at(i as int) matches Obj::Class { name: n2, methods: ms } && n2
                        == name && ms == methods,
                    m <= n,
                    n == methods@.len(),
                    forall|k: int| 0 <= k < out@.len() ==> heap.valid_value(#[trigger] out@[k]),
                    out@.len() == 2 * m + 1,
                    out@[0] == Value::Object(*name),
                    forall|m2: int|
                        0 <= m2 < m ==> out@[2 * m2 + 1] == Value::Object(
                            (#[trigger] methods@[m2]).0,
                        ) && out@[2 * m2 + 2] == Value::Object(methods@[m2].1),
                decreases n - m,
            {
                let (k, v) = methods[m];
                out.push(Value::Object(k));
                out.push(Value::Object(v));
                proof {
                    assert(heap.is_str(methods@[m as int].0 as int));
                    assert(heap.is_closure(methods@[m as int].1 as int));
                }
                m = m + 1;
            }
            proof {
                assert forall|marks: Seq<bool>|
                    marks.len() == heap.objects@.len() && (forall|k: int|
                        0 <= k < out@.len() ==> value_marked(
                            #[trigger] out@[k],
                            marks,
                        )) implies obj_refs_marked(heap.obj_at(i as int), marks) by {
                    assert(value_marked(out@[0], marks));
                    assert forall|m2: int| 0 <= m2 < methods@.len() implies 0 <= (
                    #[trigger] methods@[m2]).0 < marks.len() && marks[methods@[m2].0 as int] && 0
                        <= methods@[m2].1 < marks.len() && marks[methods@[m2].1 as int] by {
                        assert(value_marked(out@[2 * m2 + 1], marks));
                        assert(value_marked(out@[2 * m2 + 2], marks));
                    }
                }
                assert forall|k3: int| 0 <= k3 < out@.len() implies (match #[trigger] out@[k3] {
                    Value::Object(x) => obj_points_to(heap.obj_at(i as int), x as int),
                    _ => true,
                }) by {
                    if k3 >= 1 {
                        let m3 = (k3 - 1) / 2;
                        assert(0 <= m3 < methods@.len());
                        if (k3 - 1) % 2 == 0 {
                            assert(k3 == 2 * m3 + 1);
                            assert(out@[k3] == Value::Object(methods@[m3].0));
                        } else {
                            assert(k3 == 2 * m3 + 2);
                            assert(out@[k3] == Value::Object(methods@[m3].1));
                        }
                    }
                }
            }
        },
        Some(Obj::Instance { class, fields }) => {
            out.push(Value::Object(*class));
            let n = fields.len();
            let mut m: usize = 0;
            while m < n
                invariant
                    heap.wf(),
                    heap.live(i as int),
                    heap.obj_at(i as int) matches Obj::Instance { class: c2, fields: fs } && c2
                        == class && fs == fields,
                    m <= n,
                    n == fields@.len(),
                    forall|k: int| 0 <= k < out@.len() ==> heap.valid_value(#[trigger] out@[k]),
                    out@.len() == 2 * m + 1,
                    out@[0] == Value::Object(*class),
                    forall|m2: int|
                        0 <= m2 < m ==> out@[2 * m2 + 1] == Value::Object(
                            (#[trigger] fields@[m2]).0,
                        ) && out@[2 * m2 + 2] == fields@[m2].1,
                decreases n - m,
            {
                let (k, v) = fields[m];
                out.push(Value::Object(k));
                out.push(v);
                proof {
                    assert(heap.is_str(fields@[m as int].0 as int));
                    assert(heap.valid_value(fields@[m as int].1));
                }
                m = m + 1;
            }
            proof {
                assert forall|marks: Seq<bool>|
                    marks.len() == heap.objects@.len() && (forall|k: int|
                        0 <= k < out@.len() ==> value_marked(
                            #[trigger] out@[k],
                            marks,
                        )) implies obj_refs_marked(heap.obj_at(i as int), marks) by {
                    assert(value_marked(out@[0], marks));
                    assert forall|m2: int| 0 <= m2 < fields@.len() implies 0 <= (
                    #[trigger] fields@[m2]).0 < marks.len() && marks[fields@[m2].0 as int]
                        && value_marked(fields@[m2].1, marks) by {
                        assert(value_marked(out@[2 * m2 + 1], marks));
                        assert(value_marked(out@[2 * m2 + 2], marks));
                    }
                }
                assert forall|k3: int| 0 <= k3 < out@.len() implies (match #[trigger] out@[k3] {
                    Value::Object(x) => obj_points_to(heap.obj_at(i as int), x as int),
                    _ => true,
                }) by {
                    if k3 >= 1 {
                        let m3 = (k3 - 1) / 2;
                        assert(0 <= m3 < fields@.len());
                        if (k3 - 1) % 2 == 0 {
                            assert(k3 == 2 * m3 + 1);
                            assert(out@[k3] == Value::Object(fields@[m3].0));
                        } else {
                            assert(k3 == 2 * m3 + 2);
                            assert(out@[k3] == fields@[m3].1);
                        }
                    }
                }
            }
        },
        Some(Obj::BoundMethod { receiver, method }) => {
            out.push(*receiver);
            out.push(Value::Object(*method));
            proof {
                assert forall|marks: Seq<bool>|
                    marks.len() == heap.objects@.len() && (forall|k: int|
                        0 <= k < out@.len() ==> value_marked(
                            #[trigger] out@[k],
                            marks,
                        )) implies obj_refs_marked(heap.obj_at(i as int), marks) by {
                    assert(value_marked(out@[0], marks));
                    assert(value_marked(out@[1], marks));
                }
                assert forall|k3: int| 0 <= k3 < out@.len() implies (match #[trigger] out@[k3] {
                    Value::Object(x) => obj_points_to(heap.obj_at(i as int), x as int),
                    _ => true,
                }) by {
                    assert(out@[0] == *receiver);
                    assert(out@[1] == Value::Object(*method));
                }
            }
        },
        None => {
            proof {
                assert(false);
            }
        },
    }
    out
}

impl GarbageCollector {
    /// Traces one marked object: marks everything it references, restoring
    /// the worklist's promise for it.
    fn blacken(&mut self, heap: &mut Heap, i: usize)
        requires
            old(heap).wf(),
            gc_inv_except(*old(heap), old(self).gray@, i as int),
            old(heap).live(i as int),
            old(heap).marks@[i as int],
        ensures
            heap_marks_only_changed(*old(heap), *final(heap)),
            final(heap).wf(),
            gc_inv(*final(heap), final(self).gray@),
            final(heap).marks@.len() == old(heap).marks@.len(),
            forall|j: int|
                0 <= j < old(heap).marks@.len() && old(heap).marks@[j] ==> final(heap).marks@[j],
            forall|j: int|
                0 <= j < final(heap).marks@.len() && final(heap).marks@[j] ==> old(heap).marks@[j]
                    || obj_points_to(old(heap).obj_at(i as int), j),
            2 * count_false(final(heap).marks@) + final(self).gray@.len() <= 2 * count_false(
                old(heap).marks@,
            ) + old(self).gray@.len(),
    {
        let refs = collect_refs(heap, i);
        let n = refs.len();
        let mut k: usize = 0;
        while k < n
            invariant
                heap.wf(),
                gc_inv_except(*heap, self.gray@, i as int),
                heap_marks_only_changed(*old(heap), *heap),
                heap.objects == old(heap).objects,
                k <= n,
                n == refs@.len(),
                forall|k2: int| 0 <= k2 < n ==> heap.valid_value(#[trigger] refs@[k2]),
                forall|k2: int|
                    0 <= k2 < n ==> (match #[trigger] refs@[k2] {
                        Value::Object(x) => obj_points_to(old(heap).obj_at(i as int), x as int),
                        _ => true,
                    }),
                forall|j: int|
                    0 <= j < old(heap).marks@.len() && old(heap).marks@[j] ==> heap.marks@[j],
                forall|j: int|
                    0 <= j < heap.marks@.len() && heap.marks@[j] ==> old(heap).marks@[j]
                        || obj_points_to(old(heap).obj_at(i as int), j),
                forall|k2: int| 0 <= k2 < k ==> value_marked(#[trigger] refs@[k2], heap.marks@),
                2 * count_false(heap.marks@) + self.gray@.len() <= 2 * count_false(
                    old(heap).marks@,
                ) + old(self).gray@.len(),
            decreases n - k,
        {
            let ghost pre = *heap;
            self.mark_value(heap, refs[k], Ghost(i as int));
            proof {
                assert forall|k2: int| 0 <= k2 < k + 1 implies value_marked(
                    #[trigger] refs@[k2],
                    heap.marks@,
                ) by {
                    if k2 < k {
                        assert(value_marked(refs@[k2], pre.marks@));
                        match refs@[k2] {
                            Value::Object(x) => {
                                assert(pre.marks@[x as int]);
                            },
                            _ => {},
                        }
                    }
                }
            }
            k = k + 1;
        }
        proof {
            assert(obj_refs_marked(heap.obj_at(i as int), heap.marks@)) by {
                assert(forall|k2: int|
                    0 <= k2 < refs@.len() ==> value_marked(#[trigger] refs@[k2], heap.marks@));
                assert(heap.obj_at(i as int) == old(heap).obj_at(i as int));
            }
            assert forall|j: int|
                0 <= j < heap.marks@.len() && heap.marks@[j] && !in_gray(self.gray@, j) && j != -1
                    implies obj_refs_marked(#[trigger] heap.obj_at(j), heap.marks@) by {
                if j != i as int {
                    assert(obj_refs_marked(heap.obj_at(j), heap.marks@));
                }
            }
        }
    }

    /// Drains the worklist: when it is empty every marked object has all its
    /// references marked, so the marked set is closed under reachability.
    fn trace(&mut self, heap: &mut Heap)
        requires
            old(heap).wf(),
            gc_inv(*old(heap), old(self).gray@),
        ensures
            heap_marks_only_changed(*old(heap), *final(heap)),
            final(heap).wf(),
            gc_inv(*final(heap), final(self).gray@),
            final(self).gray@.len() == 0,
            final(heap).marks@.len() == old(heap).marks@.len(),
            forall|j: int|
                0 <= j < old(heap).marks@.len() && old(heap).marks@[j] ==> final(heap).marks@[j],
            forall|j: int|
                0 <= j < final(heap).marks@.len() && final(heap).marks@[j] ==> marked_reaches(
                    old(heap).marks@,
                    *old(heap),
                    j,
                ),
    {
        proof {
            assert forall|j: int|
                0 <= j < heap.marks@.len() && heap.marks@[j] implies marked_reaches(
                old(heap).marks@,
                *old(heap),
                j,
            ) by {
                lemma_reaches_base(old(heap).marks@, *old(heap), j);
            }
        }
        loop
            invariant
                heap.wf(),
                gc_inv(*heap, self.gray@),
                heap_marks_only_changed(*old(heap), *heap),
                heap.objects == old(heap).objects,
                forall|j: int|
                    0 <= j < old(heap).marks@.len() && old(heap).marks@[j] ==> heap.marks@[j],
                forall|j: int|
                    0 <= j < heap.marks@.len() && heap.marks@[j] ==> marked_reaches(
                        old(heap).marks@,
                        *old(heap),
                        j,
                    ),
            ensures
                heap.wf(),
                gc_inv(*heap, self.gray@),
                heap_marks_only_changed(*old(heap), *heap),
                heap.objects == old(heap).objects,
                self.gray@.len() == 0,
                forall|j: int|
                    0 <= j < old(heap).marks@.len() && old(heap).marks@[j] ==> heap.marks@[j],
                forall|j: int|
                    0 <= j < heap.marks@.len() && heap.marks@[j] ==> marked_reaches(
                        old(heap).marks@,
                        *old(heap),
                        j,
                    ),
            decreases 2 * count_false(heap.marks@) + self.gray@.len(),
        {
            if self.gray.len() == 0 {
                break;
            }
            let ghost pre_gray = self.gray@;
            let i = match self.gray.pop() {
                Some(i) => i,
                None => {
                    proof {
                        assert(false);
                    }
                    0
                },
            };
            proof {
                assert(pre_gray[pre_gray.len() - 1] == i);
                assert(heap.marks@[i as int]);
                assert forall|j: int|
                    0 <= j < heap.marks@.len() && heap.marks@[j] && !in_gray(self.gray@, j) && j
                        != i as int implies obj_refs_marked(
                    #[trigger] heap.obj_at(j),
                    heap.marks@,
                ) by {
                    if !in_gray(pre_gray, j) {
                    } else {
                        let k = choose|k: int| 0 <= k < pre_gray.len() && pre_gray[k] == j;
                        assert(k == pre_gray.len() - 1 || self.gray@[k] == j);
                    }
                }
            }
            let ghost pre_blacken = *heap;
            self.blacken(heap, i);
            proof {
                assert forall|j: int|
                    0 <= j < heap.marks@.len() && heap.marks@[j] implies marked_reaches(
                    old(heap).marks@,
                    *old(heap),
                    j,
                ) by {
                    if !pre_blacken.marks@[j] {
                        assert(obj_points_to(pre_blacken.obj_at(i as int), j));
                        assert(pre_blacken.obj_at(i as int) == old(heap).obj_at(i as int));
                        assert(marked_reaches(old(heap).marks@, *old(heap), i as int));
                        lemma_reaches_step(old(heap).marks@, *old(heap), i as int, j);
                    }
                }
            }
        }
    }
}

/// A chain of references: each entry's object points to the next entry.
pub open spec fn ref_path(h: Heap, path: Seq<int>) -> bool {
    forall|k: int|
        0 <= k < path.len() - 1 ==> obj_points_to(h.obj_at(#[trigger] path[k]), path[k + 1])
}

/// The machine's roots: what a collection must keep. A slot is a root when a
/// stack value, a frame's closure, an open upvalue, a global binding (name
/// or value), or the interned `init` name refers to it.
pub open spec fn vm_root(vm: Vm, i: int) -> bool {
    ||| exists|k: int|
        0 <= k < vm.stack@.len() && ((#[trigger] vm.stack@[k]) matches Value::Object(x) && x as int
            == i)
    ||| exists|f: int|
        0 <= f < vm.frames@.len() && (#[trigger] vm.frames@[f]).closure as int == i
    ||| exists|u: int|
        0 <= u < vm.open_upvalues@.len() && (#[trigger] vm.open_upvalues@[u]) as int == i
    ||| exists|g: int|
        0 <= g < vm.heap.globals@.len() && ((#[trigger] vm.heap.globals@[g]).0 as int == i || (
        vm.heap.globals@[g].1 matches Value::Object(x) && x as int == i))
    ||| vm.init_name as int == i
}

/// A slot the machine reaches: some chain of references leads from a root
/// to it.
pub open spec fn vm_reaches(vm: Vm, h: Heap, i: int) -> bool {
    exists|path: Seq<int>|
        path.len() >= 1 && vm_root(vm, path[0]) && path.last() == i && ref_path(h, path)
}

/// Reachable from some initially-marked slot by a chain of references.
pub open spec fn marked_reaches(init: Seq<bool>, h: Heap, j: int) -> bool {
    exists|path: Seq<int>|
        path.len() >= 1 && 0 <= path[0] < init.len() && init[path[0]] && path.last() == j
            && ref_path(h, path)
}

/// An initially-marked slot reaches itself.
proof fn lemma_reaches_base(init: Seq<bool>, h: Heap, j: int)
    requires
        0 <= j < init.len(),
        init[j],
    ensures
        marked_reaches(init, h, j),
{
    let path = seq![j];
    assert(path.last() == j);
    assert(ref_path(h, path));
}

/// One more reference extends a chain.
proof fn lemma_reaches_step(init: Seq<bool>, h: Heap, p: int, j: int)
    requires
        marked_reaches(init, h, p),
        obj_points_to(h.obj_at(p), j),
    ensures
        marked_reaches(init, h, j),
{
    let path = choose|path: Seq<int>|
        path.len() >= 1 && 0 <= path[0] < init.len() && init[path[0]] && path.last() == p
            && ref_path(h, path);
    let path2 = path.push(j);
    assert(ref_path(h, path2)) by {
        assert forall|k: int|
            0 <= k < path2.len() - 1 implies obj_points_to(
            h.obj_at(#[trigger] path2[k]),
            path2[k + 1],
        ) by {
            if k < path.len() - 1 {
                assert(path2[k] == path[k]);
                assert(path2[k + 1] == path[k + 1]);
                assert(obj_points_to(h.obj_at(path[k]), path[k + 1]));
            } else {
                assert(path2[k] == path.last());
                assert(path2[k + 1] == j);
            }
        }
    }
    assert(path2[0] == path[0]);
    assert(path2.last() == j);
}

/// A marked object's direct reference is itself marked.
proof fn lemma_points_to_marked(o: Obj, j: int, marks: Seq<bool>)
    requires
        obj_refs_marked(o, marks),
        obj_points_to(o, j),
    ensures
        0 <= j < marks.len() && marks[j],
{
    match o {
        Obj::Str(_) => {},
        Obj::Function(f) => {
            if !(f.name matches Some(n) && n == j) {
                let c = choose|c: int|
                    0 <= c < f.chunk.constants@.len() && ((#[trigger] f.chunk.constants@[c]) matches
                    Value::Object(x) && x == j);
                assert(value_marked(f.chunk.constants@[c], marks));
            }
        },
        Obj::Closure { function, upvalues } => {
            if function != j {
                let u = choose|u: int| 0 <= u < upvalues@.len() && #[trigger] upvalues@[u] == j;
                assert(marks[upvalues@[u] as int]);
            }
        },
        Obj::Upvalue(st) => {
            match st {
                crate::heap::UpvalueState::Closed(v) => {
                    assert(value_marked(v, marks));
                },
                _ => {},
            }
        },
        Obj::Class { name, methods } => {
            if name != j {
                let m = choose|m: int|
                    0 <= m < methods@.len() && ((#[trigger] methods@[m]).0 == j || methods@[m].1
                        == j);
                assert(marks[methods@[m].0 as int] && marks[methods@[m].1 as int]);
            }
        },
        Obj::Instance { class, fields } => {
            if class != j {
                let m = choose|m: int|
                    0 <= m < fields@.len() && ((#[trigger] fields@[m]).0 == j || (fields@[m].1
                        matches Value::Object(x) && x == j));
                assert(marks[fields@[m].0 as int]);
                assert(value_marked(fields@[m].1, marks));
            }
        },
        Obj::BoundMethod { receiver, method } => {
            if method != j {
                assert(value_marked(receiver, marks));
            }
        },
    }
}

/// When the marked set is closed under references, everything a chain from
/// a marked object reaches is marked.
proof fn lemma_path_marked(h: Heap, marks: Seq<bool>, path: Seq<int>)
    requires
        marks.len() == h.objects@.len(),
        forall|j: int|
            0 <= j < marks.len() && marks[j] ==> obj_refs_marked(#[trigger] h.obj_at(j), marks),
        path.len() >= 1,
        0 <= path[0] < marks.len(),
        marks[path[0]],
        ref_path(h, path),
    ensures
        0 <= path.last() < marks.len() && marks[path.last()],
    decreases path.len(),
{
    if path.len() > 1 {
        assert(obj_points_to(h.obj_at(path[0]), path[1]));
        lemma_points_to_marked(h.obj_at(path[0]), path[1], marks);
        let rest = path.drop_first();
        assert(ref_path(h, rest)) by {
            assert forall|k: int|
                0 <= k < rest.len() - 1 implies obj_points_to(
                h.obj_at(#[trigger] rest[k]),
                rest[k + 1],
            ) by {
                assert(rest[k] == path[k + 1]);
                assert(rest[k + 1] == path[k + 2]);
                assert(obj_points_to(h.obj_at(path[k + 1]), path[k + 2]));
            }
        }
        lemma_path_marked(h, marks, rest);
        assert(rest.last() == path.last());
    }
}

/// A marked object's judgments survive the sweep: its references were
/// marked, so they stay live, unchanged.
proof fn lemma_sweep_obj_wf(pre: Heap, post: Heap, o: Obj)
    requires
        pre.obj_wf(o),
        obj_refs_marked(o, pre.marks@),
        pre.marks@.len() == pre.objects@.len(),
        post.objects@.len() == pre.objects@.len(),
        forall|j: int|
            0 <= j < pre.marks@.len() && pre.marks@[j] ==> #[trigger] post.objects@[j]
                == pre.objects@[j] && pre.objects@[j] is Some,
    ensures
        post.obj_wf(o),
{
    match o {
        Obj::Str(_) => {},
        Obj::Function(f) => {
            assert forall|c: int| 0 <= c < f.chunk.constants@.len() implies post.valid_value(
                #[trigger] f.chunk.constants@[c],
            ) by {
                assert(value_marked(f.chunk.constants@[c], pre.marks@));
            }
        },
        Obj::Closure { function, upvalues } => {
            assert(post.objects@[function as int] == pre.objects@[function as int]);
            assert forall|u: int| 0 <= u < upvalues@.len() implies post.is_upvalue(
                #[trigger] upvalues@[u] as int,
            ) by {
                assert(pre.marks@[upvalues@[u] as int]);
                assert(pre.is_upvalue(upvalues@[u] as int));
            }
        },
        Obj::Upvalue(_) => {},
        Obj::Class { name, methods } => {
            assert(post.objects@[name as int] == pre.objects@[name as int]);
            assert forall|m: int| 0 <= m < methods@.len() implies post.is_str(
                (#[trigger] methods@[m]).0 as int,
            ) && post.is_closure(methods@[m].1 as int) by {
                assert(pre.marks@[methods@[m].0 as int] && pre.marks@[methods@[m].1 as int]);
                assert(pre.is_str(methods@[m].0 as int));
                assert(pre.is_closure(methods@[m].1 as int));
            }
        },
        Obj::Instance { class, fields } => {
            assert(post.objects@[class as int] == pre.objects@[class as int]);
            assert forall|m: int| 0 <= m < fields@.len() implies post.is_str(
                (#[trigger] fields@[m]).0 as int,
            ) && post.valid_value(fields@[m].1) by {
                assert(pre.marks@[fields@[m].0 as int]);
                assert(pre.is_str(fields@[m].0 as int));
                assert(value_marked(fields@[m].1, pre.marks@));
            }
        },
        Obj::BoundMethod { receiver, method } => {
            assert(value_marked(receiver, pre.marks@));
            assert(pre.marks@[method as int]);
            assert(pre.is_closure(method as int));
            assert(post.objects@[method as int] == pre.objects@[method as int]);
        },
    }
}

impl Vm {
    /// One full collection: clear the mark bits, mark every root (the value
    /// stack, the frames' closures, the open upvalues, the globals, and the
    /// interned `init` name), trace to closure, prune the weak intern table,
    /// and sweep. Live objects survive unchanged; the threshold doubles.
    #[verifier::rlimit(60)]
    pub fn collect_garbage(&mut self)
        requires
            old(self).wf(),
        ensures
            final(self).wf(),
            final(self).stack == old(self).stack,
            final(self).frames == old(self).frames,
            final(self).open_upvalues == old(self).open_upvalues,
            final(self).output == old(self).output,
            final(self).init_name == old(self).init_name,
            final(self).heap.objects@.len() == old(self).heap.objects@.len(),
            final(self).heap.globals == old(self).heap.globals,
            forall|j: int|
                final(self).heap.live(j) ==> old(self).heap.live(j)
                    && final(self).heap.objects@[j] == old(self).heap.objects@[j],
            forall|j: int|
                #[trigger] vm_reaches(*old(self), old(self).heap, j) ==> final(self).heap.live(j)
                    && final(self).heap.objects@[j] == old(self).heap.objects@[j],
            forall|j: int| final(self).heap.live(j) ==> vm_reaches(*old(self), old(self).heap, j),
            final(self).heap.bytes_allocated <= old(self).heap.bytes_allocated,
            final(self).heap.next_gc == if final(self).heap.bytes_allocated > usize::MAX / 2 {
                usize::MAX
            } else {
                (final(self).heap.bytes_allocated * 2) as usize
            },
    {
        let n = self.heap.objects.len();
        // Clear the mark bits from the last cycle.
        let mut i: usize = 0;
        while i < n
            invariant
                self.stack == old(self).stack,
                self.frames == old(self).frames,
                self.open_upvalues == old(self).open_upvalues,
                self.output == old(self).output,
                self.init_name == old(self).init_name,
                self.heap.objects == old(self).heap.objects,
                self.heap.strings == old(self).heap.strings,
                self.heap.globals == old(self).heap.globals,
                self.heap.marks@.len() == old(self).heap.marks@.len(),
                self.heap.bytes_allocated == old(self).heap.bytes_allocated,
                self.heap.next_gc == old(self).heap.next_gc,
                n == self.heap.objects@.len(),
                old(self).wf(),
                i <= n,
                forall|j: int| 0 <= j < i ==> !self.heap.marks@[j],
            decreases n - i,
        {
            self.heap.marks[i] = false;
            i = i + 1;
        }
        proof {
            lemma_wf_same_objects(old(self).heap, self.heap);
        }
        let mut gc = GarbageCollector::new();

        // Roots: the value stack.
        let sn = self.stack.len();
        let mut si: usize = 0;
        while si < sn
            invariant
                self.stack == old(self).stack,
                self.frames == old(self).frames,
                self.open_upvalues == old(self).open_upvalues,
                self.output == old(self).output,
                self.init_name == old(self).init_name,
                self.heap.objects == old(self).heap.objects,
                self.heap.strings == old(self).heap.strings,
                self.heap.globals == old(self).heap.globals,
                self.heap.marks@.len() == old(self).heap.marks@.len(),
                self.heap.bytes_allocated == old(self).heap.bytes_allocated,
                self.heap.next_gc == old(self).heap.next_gc,
                sn == self.stack@.len(),
                old(self).wf(),
                self.heap.wf(),
                gc_inv(self.heap, gc.gray@),
                forall|j: int|
                    0 <= j < self.heap.marks@.len() && self.heap.marks@[j] ==> vm_root(
                        *old(self),
                        j,
                    ),
                si <= sn,
                forall|j: int| 0 <= j < si ==> value_marked(#[trigger] self.stack@[j], self.heap.marks@),
            decreases sn - si,
        {
            let v = self.stack[si];
            let ghost pre_marks = self.heap.marks@;
            gc.mark_value(&mut self.heap, v, Ghost(-1));
            proof {
                assert forall|j: int| 0 <= j < si + 1 implies value_marked(
                    #[trigger] self.stack@[j],
                    self.heap.marks@,
                ) by {
                    if j < si {
                        assert(value_marked(self.stack@[j], pre_marks));
                    }
                }
                assert forall|j: int|
                    0 <= j < self.heap.marks@.len() && self.heap.marks@[j] implies vm_root(
                    *old(self),
                    j,
                ) by {
                    if !pre_marks[j] {
                        assert(old(self).stack@[si as int] == self.stack@[si as int]);
                    }
                }
            }
            si = si + 1;
        }
        // Roots: the frames' closures.
        let fnn = self.frames.len();
        let mut fi: usize = 0;
        while fi < fnn
            invariant
                self.stack == old(self).stack,
                self.frames == old(self).frames,
                self.open_upvalues == old(self).open_upvalues,
                self.output == old(self).output,
                self.init_name == old(self).init_name,
                self.heap.objects == old(self).heap.objects,
                self.heap.strings == old(self).heap.strings,
                self.heap.globals == old(self).heap.globals,
                self.heap.marks@.len() == old(self).heap.marks@.len(),
                self.heap.bytes_allocated == old(self).heap.bytes_allocated,
                self.heap.next_gc == old(self).heap.next_gc,
                fnn == self.frames@.len(),
                old(self).wf(),
                self.heap.wf(),
                gc_inv(self.heap, gc.gray@),
                forall|j: int|
                    0 <= j < self.heap.marks@.len() && self.heap.marks@[j] ==> vm_root(
                        *old(self),
                        j,
                    ),
                fi <= fnn,
                forall|j: int|
                    0 <= j < self.stack@.len() ==> value_marked(
                        #[trigger] self.stack@[j],
                        self.heap.marks@,
                    ),
                forall|j: int|
                    0 <= j < fi ==> self.heap.marks@[(#[trigger] self.frames@[j]).closure as int],
            decreases fnn - fi,
        {
            let c = self.frames[fi].closure;
            let ghost pre_marks = self.heap.marks@;
            proof {
                assert(old(self).heap.is_closure(old(self).frames@[fi as int].closure as int));
            }
            gc.mark_obj(&mut self.heap, c, Ghost(-1int));
            proof {
                assert forall|j: int|
                    0 <= j < self.stack@.len() implies value_marked(
                    #[trigger] self.stack@[j],
                    self.heap.marks@,
                ) by {
                    assert(value_marked(self.stack@[j], pre_marks));
                }
                assert forall|j: int|
                    0 <= j < self.heap.marks@.len() && self.heap.marks@[j] implies vm_root(
                    *old(self),
                    j,
                ) by {
                    if !pre_marks[j] {
                        assert((old(self).frames@[fi as int]).closure as int == j);
                    }
                }
            }
            fi = fi + 1;
        }
        // Roots: the open upvalues.
        let un = self.open_upvalues.len();
        let mut ui: usize = 0;
        while ui < un
            invariant
                self.stack == old(self).stack,
                self.frames == old(self).frames,
                self.open_upvalues == old(self).open_upvalues,
                self.output == old(self).output,
                self.init_name == old(self).init_name,
                self.heap.objects == old(self).heap.objects,
                self.heap.strings == old(self).heap.strings,
                self.heap.globals == old(self).heap.globals,
                self.heap.marks@.len() == old(self).heap.marks@.len(),
                self.heap.bytes_allocated == old(self).heap.bytes_allocated,
                self.heap.next_gc == old(self).heap.next_gc,
                un == self.open_upvalues@.len(),
                old(self).wf(),
                self.heap.wf(),
                gc_inv(self.heap, gc.gray@),
                forall|j: int|
                    0 <= j < self.heap.marks@.len() && self.heap.marks@[j] ==> vm_root(
                        *old(self),
                        j,
                    ),
                ui <= un,
                forall|j: int|
                    0 <= j < self.stack@.len() ==> value_marked(
                        #[trigger] self.stack@[j],
                        self.heap.marks@,
                    ),
                forall|j: int|
                    0 <= j < self.frames@.len() ==> self.heap.marks@[(
                    #[trigger] self.frames@[j]).closure as int],
                forall|j: int|
                    0 <= j < ui ==> self.heap.marks@[#[trigger] self.open_upvalues@[j] as int],
            decreases un - ui,
        {
            let u = self.open_upvalues[ui];
            let ghost pre_marks = self.heap.marks@;
            proof {
                assert(old(self).heap.is_upvalue(old(self).open_upvalues@[ui as int] as int));
            }
            gc.mark_obj(&mut self.heap, u, Ghost(-1int));
            proof {
                assert forall|j: int|
                    0 <= j < self.stack@.len() implies value_marked(
                    #[trigger] self.stack@[j],
                    self.heap.marks@,
                ) by {
                    assert(value_marked(self.stack@[j], pre_marks));
                }
                assert forall|j: int|
                    0 <= j < self.heap.marks@.len() && self.heap.marks@[j] implies vm_root(
                    *old(self),
                    j,
                ) by {
                    if !pre_marks[j] {
                        assert(old(self).open_upvalues@[ui as int] as int == j);
                    }
                }
            }
            ui = ui + 1;
        }
        // Roots: the global environment, names and values both.
        let gn = self.heap.globals.len();
        let mut gi: usize = 0;
        while gi < gn
            invariant
                self.stack == old(self).stack,
                self.frames == old(self).frames,
                self.open_upvalues == old(self).open_upvalues,
                self.output == old(self).output,
                self.init_name == old(self).init_name,
                self.heap.objects == old(self).heap.objects,
                self.heap.strings == old(self).heap.strings,
                self.heap.globals == old(self).heap.globals,
                self.heap.marks@.len() == old(self).heap.marks@.len(),
                self.heap.bytes_allocated == old(self).heap.bytes_allocated,
                self.heap.next_gc == old(self).heap.next_gc,
                gn == self.heap.globals@.len(),
                old(self).wf(),
                self.heap.wf(),
                gc_inv(self.heap, gc.gray@),
                forall|j: int|
                    0 <= j < self.heap.marks@.len() && self.heap.marks@[j] ==> vm_root(
                        *old(self),
                        j,
                    ),
                gi <= gn,
                forall|j: int|
                    0 <= j < self.stack@.len() ==> value_marked(
                        #[trigger] self.stack@[j],
                        self.heap.marks@,
                    ),
                forall|j: int|
                    0 <= j < self.frames@.len() ==> self.heap.marks@[(
                    #[trigger] self.frames@[j]).closure as int],
                forall|j: int|
                    0 <= j < self.open_upvalues@.len() ==> self.heap.marks@[
                    #[trigger] self.open_upvalues@[j] as int],
                forall|j: int|
                    0 <= j < gi ==> self.heap.marks@[(#[trigger] self.heap.globals@[j]).0 as int]
                        && value_marked(self.heap.globals@[j].1, self.heap.marks@),
            decreases gn - gi,
        {
            let (key, value) = self.heap.globals[gi];
            let ghost pre_marks = self.heap.marks@;
            proof {
                assert(old(self).heap.is_str(old(self).heap.globals@[gi as int].0 as int));
                assert(old(self).heap.valid_value(old(self).heap.globals@[gi as int].1));
            }
            gc.mark_obj(&mut self.heap, key, Ghost(-1int));
            let ghost mid_marks = self.heap.marks@;
            gc.mark_value(&mut self.heap, value, Ghost(-1int));
            proof {
                assert forall|j: int|
                    0 <= j < self.stack@.len() implies value_marked(
                    #[trigger] self.stack@[j],
                    self.heap.marks@,
                ) by {
                    assert(value_marked(self.stack@[j], pre_marks));
                }
                assert forall|j: int| 0 <= j < gi + 1 implies self.heap.marks@[(
                #[trigger] self.heap.globals@[j]).0 as int] && value_marked(
                    self.heap.globals@[j].1,
                    self.heap.marks@,
                ) by {
                    if j < gi {
                        assert(value_marked(self.heap.globals@[j].1, pre_marks));
                    }
                }
                assert forall|j: int|
                    0 <= j < self.heap.marks@.len() && self.heap.marks@[j] implies vm_root(
                    *old(self),
                    j,
                ) by {
                    if !pre_marks[j] {
                        if mid_marks[j] {
                            assert((old(self).heap.globals@[gi as int]).0 as int == j);
                        } else {
                            assert((old(self).heap.globals@[gi as int]).1 == self.heap.globals@[gi as int].1);
                        }
                    }
                }
            }
            gi = gi + 1;
        }
        // Roots: the interned `init` name the class-call path relies on.
        let init = self.init_name;
        let ghost pre_marks = self.heap.marks@;
        gc.mark_obj(&mut self.heap, init, Ghost(-1int));
        proof {
            assert forall|j: int|
                0 <= j < self.stack@.len() implies value_marked(
                #[trigger] self.stack@[j],
                self.heap.marks@,
            ) by {
                assert(value_marked(self.stack@[j], pre_marks));
            }
            assert forall|j: int|
                0 <= j < self.heap.marks@.len() && self.heap.marks@[j] implies vm_root(
                *old(self),
                j,
            ) by {
                if !pre_marks[j] {
                    assert(old(self).init_name as int == j);
                }
            }
        }

        // Trace to closure.
        let ghost pre_trace = self.heap.marks@;
        let ghost pre_trace_heap = self.heap;
        gc.trace(&mut self.heap);
        proof {
            assert forall|j: int|
                0 <= j < self.stack@.len() implies value_marked(
                #[trigger] self.stack@[j],
                self.heap.marks@,
            ) by {
                assert(value_marked(self.stack@[j], pre_trace));
            }
            assert forall|j: int| 0 <= j < self.heap.globals@.len() implies self.heap.marks@[(
            #[trigger] self.heap.globals@[j]).0 as int] && value_marked(
                self.heap.globals@[j].1,
                self.heap.marks@,
            ) by {
                assert(value_marked(self.heap.globals@[j].1, pre_trace));
            }
            assert forall|f2: int|
                0 <= f2 < self.frames@.len() implies self.heap.marks@[(
            #[trigger] self.frames@[f2]).closure as int] by {
                assert(pre_marks[self.frames@[f2].closure as int]);
                assert(pre_trace[self.frames@[f2].closure as int]);
            }
            assert forall|u2: int|
                0 <= u2 < self.open_upvalues@.len() implies self.heap.marks@[
            #[trigger] self.open_upvalues@[u2] as int] by {
                assert(pre_marks[self.open_upvalues@[u2] as int]);
                assert(pre_trace[self.open_upvalues@[u2] as int]);
            }
            assert(self.heap.marks@[self.init_name as int]) by {
                assert(pre_trace[self.init_name as int]);
            }
        }
        let ghost marked = self.heap.marks@;
        let ghost pre_sweep = self.heap;

        // Prune the weak intern table: an entry whose string was not marked
        // would dangle after the sweep.
        let stn = self.heap.strings.len();
        let mut new_strings: Vec<usize> = Vec::new();
        let mut sti: usize = 0;
        while sti < stn
            invariant
                self.heap == pre_sweep,
                pre_sweep.wf(),
                stn == self.heap.strings@.len(),
                sti <= stn,
                forall|k: int|
                    0 <= k < new_strings@.len() ==> exists|ko: int|
                        0 <= ko < sti && self.heap.strings@[ko] == #[trigger] new_strings@[k],
                forall|k: int|
                    0 <= k < new_strings@.len() ==> self.heap.marks@[
                    #[trigger] new_strings@[k] as int],
                forall|ko: int|
                    0 <= ko < sti && self.heap.marks@[#[trigger] self.heap.strings@[ko] as int]
                        ==> exists|k: int|
                        0 <= k < new_strings@.len() && new_strings@[k] == self.heap.strings@[ko],
                forall|k1: int, k2: int|
                    0 <= k1 < new_strings@.len() && 0 <= k2 < new_strings@.len() && k1 != k2 ==> (
                    #[trigger] new_strings@[k1]) != (#[trigger] new_strings@[k2]),
            decreases stn - sti,
        {
            let st = self.heap.strings[sti];
            proof {
                assert(self.heap.is_str(self.heap.strings@[sti as int] as int));
            }
            let ghost prev_new = new_strings@;
            if self.heap.marks[st] {
                new_strings.push(st);
            }
            proof {
                assert forall|k: int| 0 <= k < new_strings@.len() implies exists|ko: int|
                    0 <= ko < sti + 1 && self.heap.strings@[ko] == #[trigger] new_strings@[k] by {
                    if k < prev_new.len() {
                        assert(new_strings@[k] == prev_new[k]);
                        let ko = choose|ko: int|
                            0 <= ko < sti && self.heap.strings@[ko] == prev_new[k];
                        assert(self.heap.strings@[ko] == new_strings@[k]);
                    } else {
                        assert(new_strings@[k] == st);
                        assert(self.heap.strings@[sti as int] == new_strings@[k]);
                    }
                }
                assert forall|k: int| 0 <= k < new_strings@.len() implies self.heap.marks@[
                #[trigger] new_strings@[k] as int] by {
                    if k < prev_new.len() {
                        assert(new_strings@[k] == prev_new[k]);
                    }
                }
                assert forall|ko: int|
                    0 <= ko < sti + 1 && self.heap.marks@[
                    #[trigger] self.heap.strings@[ko] as int] implies exists|k: int|
                    0 <= k < new_strings@.len() && new_strings@[k] == self.heap.strings@[ko] by {
                    if ko < sti {
                        let k = choose|k: int|
                            0 <= k < prev_new.len() && prev_new[k] == self.heap.strings@[ko];
                        assert(new_strings@[k] == self.heap.strings@[ko]);
                    } else {
                        assert(new_strings@[new_strings@.len() - 1] == self.heap.strings@[ko]);
                    }
                }
                assert forall|k1: int, k2: int|
                    0 <= k1 < new_strings@.len() && 0 <= k2 < new_strings@.len() && k1
                        != k2 implies (#[trigger] new_strings@[k1]) != (
                #[trigger] new_strings@[k2]) by {
                    if k1 < prev_new.len() && k2 < prev_new.len() {
                        assert(prev_new[k1] != prev_new[k2]);
                    } else {
                        let older = if k1 < prev_new.len() {
                            k1
                        } else {
                            k2
                        };
                        if k1 != k2 && (k1 >= prev_new.len() || k2 >= prev_new.len()) && k1
                            < new_strings@.len() && k2 < new_strings@.len() && older
                            < prev_new.len() {
                            let ko = choose|ko: int|
                                0 <= ko < sti && self.heap.strings@[ko] == prev_new[older];
                            if new_strings@[k1] == new_strings@[k2] {
                                assert(self.heap.strings@[ko] == self.heap.strings@[sti as int]);
                                assert(self.heap.str_chars(self.heap.strings@[ko] as int)
                                    != self.heap.str_chars(
                                    self.heap.strings@[sti as int] as int,
                                ));
                            }
                        }
                    }
                }
            }
            sti = sti + 1;
        }
        let ghost pruned = new_strings@;
        self.heap.strings = new_strings;

        // Sweep: free everything the marks did not reach.
        let mut wi: usize = 0;
        while wi < n
            invariant
                self.stack == old(self).stack,
                self.frames == old(self).frames,
                self.open_upvalues == old(self).open_upvalues,
                self.output == old(self).output,
                self.init_name == old(self).init_name,
                self.heap.marks@ == marked,
                marked.len() == n,
                self.heap.globals == pre_sweep.globals,
                self.heap.strings@ == pruned,
                n == self.heap.objects@.len(),
                n == pre_sweep.objects@.len(),
                wi <= n,
                self.heap.bytes_allocated <= pre_sweep.bytes_allocated,
                forall|j: int|
                    0 <= j < n ==> #[trigger] self.heap.objects@[j] == if j < wi && !marked[j] {
                        None::<Obj>
                    } else {
                        pre_sweep.objects@[j]
                    },
            decreases n - wi,
        {
            if !self.heap.marks[wi] {
                // Give the freed object's account back, so that the next
                // threshold doubles the live footprint, not all allocation.
                let freed: usize = match &self.heap.objects[wi] {
                    Some(o) => obj_size(o),
                    None => 0,
                };
                if self.heap.bytes_allocated >= freed {
                    self.heap.bytes_allocated = self.heap.bytes_allocated - freed;
                } else {
                    self.heap.bytes_allocated = 0;
                }
                self.heap.objects[wi] = None;
            }
            wi = wi + 1;
        }

        // The next collection comes when the surviving footprint doubles.
        let bytes = self.heap.bytes_allocated;
        self.heap.next_gc = if bytes <= usize::MAX / 2 {
            bytes * 2
        } else {
            usize::MAX
        };

        proof {
            let post = self.heap;
            assert(forall|j: int|
                0 <= j < n ==> #[trigger] post.objects@[j] == if !marked[j] {
                    None::<Obj>
                } else {
                    pre_sweep.objects@[j]
                });
            assert forall|j: int|
                0 <= j < pre_sweep.marks@.len() && pre_sweep.marks@[j]
                    implies #[trigger] post.objects@[j] == pre_sweep.objects@[j]
                && pre_sweep.objects@[j] is Some by {
                assert(pre_sweep.live(j));
            }
            assert forall|j: int| post.live(j) implies post.obj_wf(#[trigger] post.obj_at(j)) by {
                assert(marked[j]);
                assert(pre_sweep.live(j));
                assert(pre_sweep.obj_wf(pre_sweep.obj_at(j)));
                assert(obj_refs_marked(pre_sweep.obj_at(j), pre_sweep.marks@));
                lemma_sweep_obj_wf(pre_sweep, post, pre_sweep.obj_at(j));
            }
            assert forall|k: int| 0 <= k < post.strings@.len() implies post.is_str(
                #[trigger] post.strings@[k] as int,
            ) by {
                assert(marked[post.strings@[k] as int]);
                let ko = choose|ko: int|
                    0 <= ko < pre_sweep.strings@.len() && pre_sweep.strings@[ko]
                        == post.strings@[k];
                assert(pre_sweep.is_str(pre_sweep.strings@[ko] as int));
            }
            assert forall|k1: int, k2: int|
                0 <= k1 < post.strings@.len() && 0 <= k2 < post.strings@.len() && k1
                    != k2 implies post.str_chars(#[trigger] post.strings@[k1] as int)
                != post.str_chars(#[trigger] post.strings@[k2] as int) by {
                let ko1 = choose|ko: int|
                    0 <= ko < pre_sweep.strings@.len() && pre_sweep.strings@[ko]
                        == post.strings@[k1];
                let ko2 = choose|ko: int|
                    0 <= ko < pre_sweep.strings@.len() && pre_sweep.strings@[ko]
                        == post.strings@[k2];
                assert(marked[post.strings@[k1] as int] && marked[post.strings@[k2] as int]);
                assert(post.strings@[k1] != post.strings@[k2]);
                assert(ko1 != ko2);
                assert(pre_sweep.str_chars(pre_sweep.strings@[ko1] as int)
                    != pre_sweep.str_chars(pre_sweep.strings@[ko2] as int));
            }
            assert forall|i2: int| #[trigger] post.is_str(i2) implies post.in_intern_table(
                i2,
            ) by {
                assert(marked[i2]);
                assert(pre_sweep.is_str(i2));
                let ko = choose|ko: int|
                    0 <= ko < pre_sweep.strings@.len() && pre_sweep.strings@[ko] == i2;
                assert(marked[pre_sweep.strings@[ko] as int]);
            }
            assert forall|g: int| 0 <= g < post.globals@.len() implies post.is_str(
                #[trigger] post.globals@[g].0 as int,
            ) && post.valid_value(post.globals@[g].1) by {
                assert(marked[post.globals@[g].0 as int]);
                assert(pre_sweep.is_str(post.globals@[g].0 as int));
                assert(value_marked(post.globals@[g].1, marked));
                match post.globals@[g].1 {
                    Value::Object(x) => {
                        assert(pre_sweep.live(x as int));
                    },
                    _ => {},
                }
            }
            assert(post.wf());
            // The machine's roots were all marked, so they all survived.
            assert forall|i2: int|
                0 <= i2 < self.stack@.len() implies self.heap.valid_value(
                #[trigger] self.stack@[i2],
            ) by {
                assert(value_marked(self.stack@[i2], marked));
            }
            assert forall|f2: int|
                0 <= f2 < self.frames@.len() implies self.heap.is_closure(
                (#[trigger] self.frames@[f2]).closure as int,
            ) by {
                assert(marked[self.frames@[f2].closure as int]);
                assert(pre_sweep.is_closure(self.frames@[f2].closure as int));
            }
            assert forall|k: int|
                0 <= k < self.open_upvalues@.len() implies self.heap.is_upvalue(
                #[trigger] self.open_upvalues@[k] as int,
            ) && self.heap.upvalue_state(self.open_upvalues@[k] as int) is Open by {
                assert(marked[self.open_upvalues@[k] as int]);
                assert(pre_sweep.is_upvalue(self.open_upvalues@[k] as int));
                assert(old(self).heap.is_upvalue(old(self).open_upvalues@[k] as int));
            }
            assert forall|k: int|
                0 <= k < self.open_upvalues@.len() implies #[trigger] self.open_slot(k)
                < self.stack@.len() by {
                assert(marked[self.open_upvalues@[k] as int]);
                assert(self.open_slot(k) == old(self).open_slot(k));
                assert(old(self).open_slot(k) < old(self).stack@.len());
            }
            assert forall|k1: int, k2: int|
                0 <= k1 < k2 < self.open_upvalues@.len() implies #[trigger] self.open_slot(k1)
                > #[trigger] self.open_slot(k2) by {
                assert(marked[self.open_upvalues@[k1] as int]);
                assert(marked[self.open_upvalues@[k2] as int]);
                assert(self.open_slot(k1) == old(self).open_slot(k1));
                assert(self.open_slot(k2) == old(self).open_slot(k2));
                assert(old(self).open_slot(k1) > old(self).open_slot(k2));
            }
            assert(marked[self.init_name as int]);
            assert(self.heap.is_str(self.init_name as int));
            // Everything a chain from a root reaches was marked, so it
            // survives the sweep unchanged.
            assert forall|j: int| #[trigger] vm_reaches(
                *old(self),
                old(self).heap,
                j,
            ) implies post.live(j) && post.objects@[j] == old(self).heap.objects@[j] by {
                let path = choose|path: Seq<int>|
                    path.len() >= 1 && vm_root(*old(self), path[0]) && path.last() == j && ref_path(
                        old(self).heap,
                        path,
                    );
                let r0 = path[0];
                assert(0 <= r0 < marked.len() && marked[r0]) by {
                    if exists|k: int|
                        0 <= k < old(self).stack@.len() && ((#[trigger] old(
                            self,
                        ).stack@[k]) matches Value::Object(x) && x as int == r0) {
                        let k = choose|k: int|
                            0 <= k < old(self).stack@.len() && ((#[trigger] old(
                                self,
                            ).stack@[k]) matches Value::Object(x) && x as int == r0);
                        assert(value_marked(self.stack@[k], marked));
                    } else if exists|g: int|
                        0 <= g < old(self).heap.globals@.len() && ((#[trigger] old(
                            self,
                        ).heap.globals@[g]).0 as int == r0 || (old(self).heap.globals@[g].1 matches
                        Value::Object(x) && x as int == r0)) {
                        let g = choose|g: int|
                            0 <= g < old(self).heap.globals@.len() && ((#[trigger] old(
                                self,
                            ).heap.globals@[g]).0 as int == r0 || (old(
                                self,
                            ).heap.globals@[g].1 matches Value::Object(x) && x as int == r0));
                        assert(marked[self.heap.globals@[g].0 as int]);
                        assert(value_marked(self.heap.globals@[g].1, marked));
                    }
                }
                assert(ref_path(pre_sweep, path)) by {
                    assert forall|k: int|
                        0 <= k < path.len() - 1 implies obj_points_to(
                        pre_sweep.obj_at(#[trigger] path[k]),
                        path[k + 1],
                    ) by {
                        assert(obj_points_to(old(self).heap.obj_at(path[k]), path[k + 1]));
                        assert(pre_sweep.objects@ == old(self).heap.objects@);
                    }
                }
                assert forall|j2: int|
                    0 <= j2 < marked.len() && marked[j2] implies obj_refs_marked(
                    #[trigger] pre_sweep.obj_at(j2),
                    marked,
                ) by {
                    assert(!in_gray(gc.gray@, j2));
                }
                lemma_path_marked(pre_sweep, marked, path);
                assert(marked[j]);
                assert(pre_sweep.live(j));
            }
            // Conversely, only what a chain from a root reaches survives:
            // the mark phase marked nothing else, and the sweep freed the
            // rest.
            assert forall|j: int| post.live(j) implies vm_reaches(
                *old(self),
                old(self).heap,
                j,
            ) by {
                assert(marked[j]);
                assert(marked_reaches(pre_trace, pre_trace_heap, j));
                let path = choose|path: Seq<int>|
                    path.len() >= 1 && 0 <= path[0] < pre_trace.len() && pre_trace[path[0]]
                        && path.last() == j && ref_path(pre_trace_heap, path);
                assert(vm_root(*old(self), path[0]));
                assert(ref_path(old(self).heap, path)) by {
                    assert forall|k: int|
                        0 <= k < path.len() - 1 implies obj_points_to(
                        old(self).heap.obj_at(#[trigger] path[k]),
                        path[k + 1],
                    ) by {
                        assert(obj_points_to(pre_trace_heap.obj_at(path[k]), path[k + 1]));
                        assert(pre_trace_heap.objects@ == old(self).heap.objects@);
                    }
                }
                assert(vm_reaches(*old(self), old(self).heap, j));
            }
        }
    }
}

} // verus!
