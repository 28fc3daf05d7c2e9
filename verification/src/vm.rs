//! The virtual machine: the value stack, the call frames, the open-upvalue
//! list, and the dispatch loop that interprets bytecode against the heap.
use vstd::prelude::*;
use vstd::string::StrSliceExecFns;

use crate::chunk::{spec_u16_of, OpCode};
use crate::compiler::compile;
use crate::error::{append_bytes, Error, RuntimeError, RuntimeErrorKind};
use crate::frame::{CallFrame, FRAMES_MAX};
use crate::heap::{assoc_value, lemma_extends_wf, same_kind, Heap, Obj, UpvalueState};
use crate::value::{dec_bytes_signed, render_i64, spec_truthy, Value};
use vstd::string::StringSliceAdditionalSpecFns;

verus! {

/// The capacity of the value stack.
pub const STACK_MAX: usize = 16384;

/// Copies an association list of plain pairs.
fn copy_pairs(src: &Vec<(usize, usize)>) -> (r: Vec<(usize, usize)>)
    ensures
        r@ == src@,
{
    let mut out: Vec<(usize, usize)> = Vec::new();
    let n = src.len();
    let mut i: usize = 0;
    while i < n
        invariant
            i <= n,
            n == src@.len(),
            out@ == src@.take(i as int),
        decreases n - i,
    {
        out.push(src[i]);
        proof {
            assert(out@ =~= src@.take(i + 1));
        }
        i = i + 1;
    }
    proof {
        assert(src@.take(n as int) =~= src@);
    }
    out
}

/// The virtual machine.
pub struct Vm {
    pub stack: Vec<Value>,
    pub frames: Vec<CallFrame>,
    pub heap: Heap,
    pub open_upvalues: Vec<usize>,
    pub output: Vec<Vec<u8>>,
    pub init_name: usize,
}

impl Vm {
    /// Every value on the stack refers to live objects only.
    pub open spec fn stack_ok(self) -> bool {
        forall|i: int|
            0 <= i < self.stack@.len() ==> self.heap.valid_value(#[trigger] self.stack@[i])
    }

    /// Every frame runs a live closure, and the bottom frame's locals start
    /// at the bottom of the stack.
    pub open spec fn frames_ok(self) -> bool {
        &&& forall|f: int|
            0 <= f < self.frames@.len() ==> self.heap.is_closure(
                (#[trigger] self.frames@[f]).closure as int,
            )
        &&& (self.frames@.len() >= 1 ==> self.frames@[0].slots == 0)
    }

    /// The stack slot an entry of the open-upvalue list points at.
    pub open spec fn open_slot(self, k: int) -> int {
        match self.heap.upvalue_state(self.open_upvalues@[k] as int) {
            UpvalueState::Open(s) => s as int,
            UpvalueState::Closed(_) => -1,
        }
    }

    /// The open-upvalue list holds open upvalues whose slots are live stack
    /// slots, in strictly descending slot order — so no two entries share a
    /// slot.
    pub open spec fn upvalues_ok(self) -> bool {
        &&& forall|k: int|
            0 <= k < self.open_upvalues@.len() ==> self.heap.is_upvalue(
                #[trigger] self.open_upvalues@[k] as int,
            ) && self.heap.upvalue_state(self.open_upvalues@[k] as int) is Open
        &&& forall|k: int|
            0 <= k < self.open_upvalues@.len() ==> #[trigger] self.open_slot(k)
                < self.stack@.len()
        &&& forall|k1: int, k2: int|
            0 <= k1 < k2 < self.open_upvalues@.len() ==> #[trigger] self.open_slot(k1)
                > #[trigger] self.open_slot(k2)
    }

    /// The frame being run: the innermost active call.
    pub open spec fn top_frame(self) -> CallFrame {
        self.frames@.last()
    }

    /// The code of the function the current frame runs.
    pub open spec fn cur_code(self) -> Seq<u8> {
        self.heap.function_of(
            self.heap.closure_function(self.top_frame().closure as int) as int,
        ).chunk.code@
    }

    /// The constant pool of the function the current frame runs.
    pub open spec fn cur_consts(self) -> Seq<Value> {
        self.heap.function_of(
            self.heap.closure_function(self.top_frame().closure as int) as int,
        ).chunk.constants@
    }

    /// The current frame's instruction cursor.
    pub open spec fn cur_ip(self) -> int {
        self.top_frame().ip.pos as int
    }

    /// The instruction the current frame is about to fetch, when the cursor
    /// is inside the code and the byte there decodes.
    pub open spec fn cur_op(self) -> Option<OpCode> {
        if 0 <= self.cur_ip() < self.cur_code().len() {
            crate::chunk::spec_op_from_byte(self.cur_code()[self.cur_ip()])
        } else {
            None
        }
    }

    /// The machine's invariant.
    pub open spec fn wf(self) -> bool {
        &&& self.heap.wf()
        &&& self.stack@.len() <= STACK_MAX
        &&& self.stack_ok()
        &&& self.frames_ok()
        &&& self.upvalues_ok()
        &&& self.heap.is_str(self.init_name as int)
    }

    /// A fresh machine with an empty heap holding only the interned `init`
    /// method name, which calls into classes need.
    pub fn new() -> (r: Vm)
        ensures
            r.wf(),
            r.stack@.len() == 0,
            r.frames@.len() == 0,
            r.open_upvalues@.len() == 0,
            r.output@.len() == 0,
            r.heap.globals@.len() == 0,
    {
        let mut heap = Heap::new();
        let init_name = heap.intern_string("init".as_bytes_vec());
        Vm { stack: Vec::new(), frames: Vec::new(), heap, open_upvalues: Vec::new(), output: Vec::new(), init_name }
    }

    /// A runtime error at the source line of the instruction the current
    /// frame last fetched.
    fn error(&self, kind: RuntimeErrorKind) -> (r: RuntimeError)
        requires
            self.wf(),
        ensures
            r.kind == kind,
    {
        let mut line: u32 = 0;
        if self.frames.len() > 0 {
            let fi = self.frames.len() - 1;
            let closure = self.frames[fi].closure;
            let func = match &self.heap.objects[closure] {
                Some(Obj::Closure { function, .. }) => *function,
                _ => 0,
            };
            proof {
                assert(self.heap.obj_wf(self.heap.obj_at(self.frames@[fi as int].closure as int)));
            }
            let ip = self.frames[fi].ip.pos;
            let at = if ip > 0 {
                ip - 1
            } else {
                0
            };
            match &self.heap.objects[func] {
                Some(Obj::Function(f)) => {
                    match f.chunk.get_line(at) {
                        Some(l) => {
                            line = l;
                        },
                        None => {},
                    }
                },
                _ => {},
            }
        }
        RuntimeError::new(kind, line)
    }

    /// Pushes a value; a full stack is the stack-overflow runtime error.
    pub fn push(&mut self, v: Value) -> (r: Result<(), RuntimeError>)
        requires
            old(self).wf(),
            old(self).heap.valid_value(v),
        ensures
            final(self).wf(),
            final(self).heap == old(self).heap,
            final(self).frames == old(self).frames,
            final(self).open_upvalues == old(self).open_upvalues,
            final(self).output == old(self).output,
            final(self).init_name == old(self).init_name,
            r is Ok ==> final(self).stack@ == old(self).stack@.push(v),
            r is Err ==> final(self).stack == old(self).stack && (r matches Err(e)
                && e.kind == RuntimeErrorKind::StackOverflow),
            old(self).stack@.len() < STACK_MAX ==> r is Ok,
    {
        if self.stack.len() >= STACK_MAX {
            let e = self.error(RuntimeErrorKind::StackOverflow);
            return Err(e);
        }
        self.stack.push(v);
        proof {
            assert forall|i: int|
                0 <= i < self.stack@.len() implies self.heap.valid_value(
                #[trigger] self.stack@[i],
            ) by {
                if i < old(self).stack@.len() {
                    assert(old(self).heap.valid_value(old(self).stack@[i]));
                } else {
                    assert(self.stack@[i] == v);
                }
            }
            assert forall|k: int|
                0 <= k < self.open_upvalues@.len() implies #[trigger] self.open_slot(k)
                < self.stack@.len() by {
                assert(old(self).open_slot(k) < old(self).stack@.len());
            }
            assert forall|k1: int, k2: int|
                0 <= k1 < k2 < self.open_upvalues@.len() implies #[trigger] self.open_slot(k1)
                > #[trigger] self.open_slot(k2) by {
                assert(self.open_slot(k1) == old(self).open_slot(k1));
                assert(self.open_slot(k2) == old(self).open_slot(k2));
            }
        }
        Ok(())
    }

    /// Closes every open upvalue at or above `threshold`: the captured value
    /// migrates from the stack into the upvalue, which leaves the list.
    fn close_upvalues(&mut self, threshold: usize)
        requires
            old(self).wf(),
        ensures
            final(self).wf(),
            final(self).stack == old(self).stack,
            final(self).frames == old(self).frames,
            final(self).output == old(self).output,
            final(self).init_name == old(self).init_name,
            final(self).heap.objects@.len() == old(self).heap.objects@.len(),
            final(self).heap.globals == old(self).heap.globals,
            final(self).heap.strings == old(self).heap.strings,
            forall|k: int|
                0 <= k < final(self).open_upvalues@.len() ==> #[trigger] final(self).open_slot(k)
                    < threshold,
            forall|j: int|
                old(self).heap.live(j) ==> final(self).heap.live(j),
            forall|j: int|
                old(self).heap.live(j) && !(old(self).heap.obj_at(j) is Upvalue)
                    ==> #[trigger] final(self).heap.objects@[j] == old(self).heap.objects@[j],
    {
        loop
            invariant
                self.wf(),
                self.stack == old(self).stack,
                self.frames == old(self).frames,
                self.output == old(self).output,
                self.init_name == old(self).init_name,
                self.heap.objects@.len() == old(self).heap.objects@.len(),
                self.heap.globals == old(self).heap.globals,
                self.heap.strings == old(self).heap.strings,
                forall|j: int| old(self).heap.live(j) ==> self.heap.live(j),
                forall|j: int|
                    old(self).heap.live(j) && !(old(self).heap.obj_at(j) is Upvalue)
                        ==> #[trigger] self.heap.objects@[j] == old(self).heap.objects@[j],
            ensures
                self.wf(),
                self.open_upvalues@.len() == 0 || self.open_slot(0) < threshold,
                forall|k: int|
                    0 <= k < self.open_upvalues@.len() ==> #[trigger] self.open_slot(k)
                        <= self.open_slot(0),
            decreases self.open_upvalues@.len(),
        {
            if self.open_upvalues.len() == 0 {
                break;
            }
            let uv = self.open_upvalues[0];
            let slot = match &self.heap.objects[uv] {
                Some(Obj::Upvalue(UpvalueState::Open(s))) => *s,
                _ => {
                    proof {
                        assert(false);
                    }
                    0
                },
            };
            if slot < threshold {
                break;
            }
            proof {
                assert(self.open_slot(0) < self.stack@.len());
            }
            let v = self.stack[slot];
            let ghost pre = *self;
            self.heap.set_upvalue(uv, UpvalueState::Closed(v));
            self.open_upvalues.remove(0);
            proof {
                assert forall|k: int|
                    0 <= k < self.open_upvalues@.len() implies self.heap.is_upvalue(
                    #[trigger] self.open_upvalues@[k] as int,
                ) && self.heap.upvalue_state(self.open_upvalues@[k] as int) is Open by {
                    assert(self.open_upvalues@[k] == pre.open_upvalues@[k + 1]);
                    assert(pre.open_slot(k + 1) < pre.open_slot(0));
                    assert(pre.open_upvalues@[k + 1] != uv);
                }
                assert forall|k: int|
                    0 <= k < self.open_upvalues@.len() implies #[trigger] self.open_slot(k)
                    < self.stack@.len() by {
                    assert(self.open_upvalues@[k] == pre.open_upvalues@[k + 1]);
                    assert(pre.open_upvalues@[k + 1] != uv);
                    assert(self.open_slot(k) == pre.open_slot(k + 1));
                }
                assert forall|k1: int, k2: int|
                    0 <= k1 < k2 < self.open_upvalues@.len() implies #[trigger] self.open_slot(k1)
                    > #[trigger] self.open_slot(k2) by {
                    assert(self.open_upvalues@[k1] == pre.open_upvalues@[k1 + 1]);
                    assert(self.open_upvalues@[k2] == pre.open_upvalues@[k2 + 1]);
                    assert(pre.open_upvalues@[k1 + 1] != uv && pre.open_upvalues@[k2 + 1] != uv);
                    assert(pre.open_slot(k1 + 1) > pre.open_slot(k2 + 1));
                }
                assert forall|i: int|
                    0 <= i < self.stack@.len() implies self.heap.valid_value(
                    #[trigger] self.stack@[i],
                ) by {
                    assert(pre.heap.valid_value(pre.stack@[i]));
                }
                assert forall|f: int|
                    0 <= f < self.frames@.len() implies self.heap.is_closure(
                    (#[trigger] self.frames@[f]).closure as int,
                ) by {
                    assert(pre.heap.is_closure(pre.frames@[f].closure as int));
                }
            }
        }
    }

    /// Pops the top of the stack, first closing any upvalue that still
    /// points at it. An empty stack means the byte stream was malformed.
    pub fn pop(&mut self) -> (r: Result<Value, RuntimeError>)
        requires
            old(self).wf(),
        ensures
            final(self).wf(),
            final(self).frames == old(self).frames,
            final(self).output == old(self).output,
            final(self).init_name == old(self).init_name,
            final(self).heap.objects@.len() == old(self).heap.objects@.len(),
            final(self).heap.globals == old(self).heap.globals,
            final(self).heap.strings == old(self).heap.strings,
            forall|j: int| old(self).heap.live(j) ==> final(self).heap.live(j),
            forall|j: int|
                old(self).heap.live(j) && !(old(self).heap.obj_at(j) is Upvalue)
                    ==> #[trigger] final(self).heap.objects@[j] == old(self).heap.objects@[j],
            r matches Ok(v) ==> old(self).stack@.len() > 0 && final(self).stack@ == old(
                self,
            ).stack@.drop_last() && v == old(self).stack@.last() && final(self).heap.valid_value(
                v,
            ),
            r is Err ==> old(self).stack@.len() == 0 && final(self).stack == old(self).stack,
    {
        let n = self.stack.len();
        if n == 0 {
            let e = self.error(RuntimeErrorKind::InvalidBytecode);
            return Err(e);
        }
        self.close_upvalues(n - 1);
        let ghost mid = *self;
        let v = match self.stack.pop() {
            Some(v) => v,
            None => {
                proof {
                    assert(false);
                }
                Value::Nil
            },
        };
        proof {
            assert forall|i: int|
                0 <= i < self.stack@.len() implies self.heap.valid_value(
                #[trigger] self.stack@[i],
            ) by {
                assert(self.heap.valid_value(old(self).stack@[i]));
            }
            assert(self.heap.valid_value(v));
            assert forall|k: int|
                0 <= k < self.open_upvalues@.len() implies #[trigger] self.open_slot(k)
                < self.stack@.len() by {
                assert(self.open_slot(k) == mid.open_slot(k));
                assert(mid.open_slot(k) < n - 1);
            }
            assert forall|k1: int, k2: int|
                0 <= k1 < k2 < self.open_upvalues@.len() implies #[trigger] self.open_slot(k1)
                > #[trigger] self.open_slot(k2) by {
                assert(self.open_slot(k1) == mid.open_slot(k1));
                assert(self.open_slot(k2) == mid.open_slot(k2));
            }
        }
        Ok(v)
    }

    /// The value `distance` slots below the top of the stack.
    fn peek_at(&self, distance: usize) -> (r: Result<Value, RuntimeError>)
        requires
            self.wf(),
        ensures
            r matches Ok(v) ==> distance < self.stack@.len() && v == self.stack@[self.stack@.len()
                - 1 - distance] && self.heap.valid_value(v),
            r is Err ==> distance >= self.stack@.len(),
    {
        let n = self.stack.len();
        if distance >= n {
            let e = self.error(RuntimeErrorKind::InvalidBytecode);
            return Err(e);
        }
        Ok(self.stack[n - 1 - distance])
    }

    /// Overwrites one live stack slot.
    fn set_slot(&mut self, slot: usize, v: Value)
        requires
            old(self).wf(),
            slot < old(self).stack@.len(),
            old(self).heap.valid_value(v),
        ensures
            final(self).wf(),
            final(self).heap == old(self).heap,
            final(self).frames == old(self).frames,
            final(self).open_upvalues == old(self).open_upvalues,
            final(self).output == old(self).output,
            final(self).init_name == old(self).init_name,
            final(self).stack@ == old(self).stack@.update(slot as int, v),
    {
        self.stack[slot] = v;
        proof {
            assert forall|i: int|
                0 <= i < self.stack@.len() implies self.heap.valid_value(
                #[trigger] self.stack@[i],
            ) by {
                if i != slot {
                    assert(self.stack@[i] == old(self).stack@[i]);
                    assert(old(self).heap.valid_value(old(self).stack@[i]));
                } else {
                    assert(self.stack@[i] == v);
                }
            }
            assert forall|k: int|
                0 <= k < self.open_upvalues@.len() implies #[trigger] self.open_slot(k)
                < self.stack@.len() by {
                assert(old(self).open_slot(k) < old(self).stack@.len());
            }
            assert forall|k1: int, k2: int|
                0 <= k1 < k2 < self.open_upvalues@.len() implies #[trigger] self.open_slot(k1)
                > #[trigger] self.open_slot(k2) by {
                assert(self.open_slot(k1) == old(self).open_slot(k1));
                assert(self.open_slot(k2) == old(self).open_slot(k2));
            }
        }
    }
}

/// The machine stays well-formed when the heap only grows and everything
/// else stands still.
proof fn lemma_vm_extend(a: Vm, b: Vm)
    requires
        a.wf(),
        b.heap.wf(),
        b.heap.extends(a.heap),
        b.stack == a.stack,
        b.frames == a.frames,
        b.open_upvalues == a.open_upvalues,
        b.init_name == a.init_name,
    ensures
        b.wf(),
{
    lemma_extends_wf(a.heap, b.heap);
    assert forall|i: int| 0 <= i < b.stack@.len() implies b.heap.valid_value(
        #[trigger] b.stack@[i],
    ) by {
        assert(a.heap.valid_value(a.stack@[i]));
    }
    assert forall|f: int| 0 <= f < b.frames@.len() implies b.heap.is_closure(
        (#[trigger] b.frames@[f]).closure as int,
    ) by {
        assert(a.heap.is_closure(a.frames@[f].closure as int));
    }
    assert forall|k: int| 0 <= k < b.open_upvalues@.len() implies b.heap.is_upvalue(
        #[trigger] b.open_upvalues@[k] as int,
    ) && b.heap.upvalue_state(b.open_upvalues@[k] as int) is Open by {
        assert(a.heap.is_upvalue(a.open_upvalues@[k] as int));
    }
    assert forall|k: int| 0 <= k < b.open_upvalues@.len() implies #[trigger] b.open_slot(k)
        < b.stack@.len() by {
        assert(a.heap.is_upvalue(a.open_upvalues@[k] as int));
        assert(b.open_slot(k) == a.open_slot(k));
        assert(a.open_slot(k) < a.stack@.len());
    }
    assert forall|k1: int, k2: int|
        0 <= k1 < k2 < b.open_upvalues@.len() implies #[trigger] b.open_slot(k1)
        > #[trigger] b.open_slot(k2) by {
        assert(a.heap.is_upvalue(a.open_upvalues@[k1] as int));
        assert(a.heap.is_upvalue(a.open_upvalues@[k2] as int));
        assert(b.open_slot(k1) == a.open_slot(k1));
        assert(b.open_slot(k2) == a.open_slot(k2));
        assert(a.open_slot(k1) > a.open_slot(k2));
    }
    assert(a.heap.is_str(a.init_name as int));
}

/// The machine stays well-formed when one live non-upvalue object is
/// rewritten in place and everything else stands still.
proof fn lemma_vm_update(a: Vm, b: Vm, target: int)
    requires
        a.wf(),
        b.heap.wf(),
        a.heap.live(target),
        !(a.heap.obj_at(target) is Upvalue),
        same_kind(b.heap.obj_at(target), a.heap.obj_at(target)),
        b.heap.objects@.len() == a.heap.objects@.len(),
        forall|j: int|
            0 <= j < b.heap.objects@.len() && j != target ==> #[trigger] b.heap.objects@[j]
                == a.heap.objects@[j],
        b.heap.live(target),
        b.stack == a.stack,
        b.frames == a.frames,
        b.open_upvalues == a.open_upvalues,
        b.init_name == a.init_name,
    ensures
        b.wf(),
{
    assert forall|i: int| 0 <= i < b.stack@.len() implies b.heap.valid_value(
        #[trigger] b.stack@[i],
    ) by {
        assert(a.heap.valid_value(a.stack@[i]));
    }
    assert forall|f: int| 0 <= f < b.frames@.len() implies b.heap.is_closure(
        (#[trigger] b.frames@[f]).closure as int,
    ) by {
        assert(a.heap.is_closure(a.frames@[f].closure as int));
    }
    assert forall|k: int| 0 <= k < b.open_upvalues@.len() implies b.heap.is_upvalue(
        #[trigger] b.open_upvalues@[k] as int,
    ) && b.heap.upvalue_state(b.open_upvalues@[k] as int) is Open by {
        assert(a.heap.is_upvalue(a.open_upvalues@[k] as int));
        assert(a.open_upvalues@[k] != target);
    }

    assert forall|k: int| 0 <= k < b.open_upvalues@.len() implies #[trigger] b.open_slot(k)
        < b.stack@.len() by {
        assert(a.heap.is_upvalue(a.open_upvalues@[k] as int));
        assert(a.open_upvalues@[k] != target);
        assert(b.open_slot(k) == a.open_slot(k));
        assert(a.open_slot(k) < a.stack@.len());
    }
    assert forall|k1: int, k2: int|
        0 <= k1 < k2 < b.open_upvalues@.len() implies #[trigger] b.open_slot(k1)
        > #[trigger] b.open_slot(k2) by {
        assert(a.heap.is_upvalue(a.open_upvalues@[k1] as int));
        assert(a.heap.is_upvalue(a.open_upvalues@[k2] as int));
        assert(a.open_upvalues@[k1] != target && a.open_upvalues@[k2] != target);
        assert(b.open_slot(k1) == a.open_slot(k1));
        assert(b.open_slot(k2) == a.open_slot(k2));
        assert(a.open_slot(k1) > a.open_slot(k2));
    }
    assert(a.heap.is_str(a.init_name as int));
}

impl Vm {
    /// The function a live closure wraps.
    fn closure_function(&self, c: usize) -> (r: usize)
        requires
            self.wf(),
            self.heap.is_closure(c as int),
        ensures
            self.heap.is_function(r as int),
            r == self.heap.closure_function(c as int),
    {
        proof {
            assert(self.heap.obj_wf(self.heap.obj_at(c as int)));
        }
        match &self.heap.objects[c] {
            Some(Obj::Closure { function, .. }) => *function,
            _ => {
                proof {
                    assert(false);
                }
                0
            },
        }
    }

    /// The arity of a live function.
    fn function_arity(&self, f: usize) -> (r: u8)
        requires
            self.wf(),
            self.heap.is_function(f as int),
        ensures
            r == self.heap.function_of(f as int).arity,
    {
        match &self.heap.objects[f] {
            Some(Obj::Function(fun)) => fun.arity,
            _ => {
                proof {
                    assert(false);
                }
                0
            },
        }
    }

    /// A copy of the content of a live string.
    fn str_copy(&self, i: usize) -> (r: Vec<u8>)
        requires
            self.wf(),
            self.heap.is_str(i as int),
        ensures
            r@ == self.heap.str_chars(i as int),
    {
        match &self.heap.objects[i] {
            Some(Obj::Str(cs)) => {
                let mut out: Vec<u8> = Vec::new();
                append_bytes(&mut out, cs);
                proof {
                    assert(out@ =~= self.heap.str_chars(i as int));
                }
                out
            },
            _ => {
                proof {
                    assert(false);
                }
                Vec::new()
            },
        }
    }

    /// Enters a call of a closure: the arity must match the argument count
    /// exactly, one more frame must fit, and the new frame's locals start at
    /// the callee's own stack slot.
    fn call_closure(&mut self, closure: usize, arg_count: u8) -> (r: Result<(), RuntimeError>)
        requires
            old(self).wf(),
            old(self).heap.is_closure(closure as int),
            old(self).stack@.len() > arg_count as int,
            old(self).frames@.len() >= 1,
        ensures
            final(self).wf(),
            final(self).heap == old(self).heap,
            final(self).stack == old(self).stack,
            final(self).open_upvalues == old(self).open_upvalues,
            final(self).output == old(self).output,
            final(self).init_name == old(self).init_name,
            final(self).frames@.len() >= 1,
            arg_count != old(self).heap.function_of(
                old(self).heap.closure_function(closure as int) as int,
            ).arity ==> (r matches Err(e) && e.kind == (RuntimeErrorKind::WrongArity {
                expected: old(self).heap.function_of(
                    old(self).heap.closure_function(closure as int) as int,
                ).arity,
                got: arg_count,
            }) && final(self).frames == old(self).frames),
            r is Ok ==> final(self).frames@ == old(self).frames@.push(
                CallFrame {
                    closure,
                    ip: crate::chunk::Ip { pos: 0 },
                    slots: (old(self).stack@.len() - arg_count - 1) as usize,
                },
            ),
            arg_count == old(self).heap.function_of(
                old(self).heap.closure_function(closure as int) as int,
            ).arity && old(self).frames@.len() < FRAMES_MAX ==> r is Ok,
            arg_count == old(self).heap.function_of(
                old(self).heap.closure_function(closure as int) as int,
            ).arity && old(self).frames@.len() >= FRAMES_MAX ==> (r matches Err(e) && e.kind
                == RuntimeErrorKind::StackOverflow),
    {
        let func = self.closure_function(closure);
        let arity = self.function_arity(func);
        if arg_count != arity {
            let e = self.error(
                RuntimeErrorKind::WrongArity { expected: arity, got: arg_count },
            );
            return Err(e);
        }
        if self.frames.len() >= FRAMES_MAX {
            let e = self.error(RuntimeErrorKind::StackOverflow);
            return Err(e);
        }
        let slots = self.stack.len() - (arg_count as usize) - 1;
        let frame = CallFrame::new(closure, slots);
        self.frames.push(frame);
        proof {
            assert forall|f: int| 0 <= f < self.frames@.len() implies self.heap.is_closure(
                (#[trigger] self.frames@[f]).closure as int,
            ) by {
                if f < old(self).frames@.len() {
                    assert(old(self).heap.is_closure(old(self).frames@[f].closure as int));
                } else {
                    assert(self.frames@[f].closure == closure);
                }
            }
            assert(self.frames@[0] == old(self).frames@[0]);
            assert forall|i: int|
                0 <= i < self.stack@.len() implies self.heap.valid_value(
                #[trigger] self.stack@[i],
            ) by {
                assert(old(self).heap.valid_value(old(self).stack@[i]));
            }
            assert forall|k: int|
                0 <= k < self.open_upvalues@.len() implies self.heap.is_upvalue(
                #[trigger] self.open_upvalues@[k] as int,
            ) && self.heap.upvalue_state(self.open_upvalues@[k] as int) is Open by {
                assert(old(self).heap.is_upvalue(old(self).open_upvalues@[k] as int));
            }
            assert forall|k: int|
                0 <= k < self.open_upvalues@.len() implies #[trigger] self.open_slot(k)
                < self.stack@.len() by {
                assert(old(self).open_slot(k) < old(self).stack@.len());
            }
            assert forall|k1: int, k2: int|
                0 <= k1 < k2 < self.open_upvalues@.len() implies #[trigger] self.open_slot(k1)
                > #[trigger] self.open_slot(k2) by {
                assert(self.open_slot(k1) == old(self).open_slot(k1));
                assert(self.open_slot(k2) == old(self).open_slot(k2));
                assert(old(self).open_slot(k1) > old(self).open_slot(k2));
            }
        }
        Ok(())
    }
}

/// The machine stays well-formed when only the heap's global table changed.
proof fn lemma_vm_globals(a: Vm, b: Vm)
    requires
        a.wf(),
        b.heap.wf(),
        b.heap.objects == a.heap.objects,
        b.stack == a.stack,
        b.frames == a.frames,
        b.open_upvalues == a.open_upvalues,
        b.init_name == a.init_name,
    ensures
        b.wf(),
{
    assert forall|i: int| 0 <= i < b.stack@.len() implies b.heap.valid_value(
        #[trigger] b.stack@[i],
    ) by {
        assert(a.heap.valid_value(a.stack@[i]));
    }
    assert forall|f: int| 0 <= f < b.frames@.len() implies b.heap.is_closure(
        (#[trigger] b.frames@[f]).closure as int,
    ) by {
        assert(a.heap.is_closure(a.frames@[f].closure as int));
    }
    assert forall|k: int| 0 <= k < b.open_upvalues@.len() implies b.heap.is_upvalue(
        #[trigger] b.open_upvalues@[k] as int,
    ) && b.heap.upvalue_state(b.open_upvalues@[k] as int) is Open by {
        assert(a.heap.is_upvalue(a.open_upvalues@[k] as int));
    }
    assert forall|k: int| 0 <= k < b.open_upvalues@.len() implies #[trigger] b.open_slot(k)
        < b.stack@.len() by {
        assert(a.heap.is_upvalue(a.open_upvalues@[k] as int));
        assert(b.open_slot(k) == a.open_slot(k));
        assert(a.open_slot(k) < a.stack@.len());
    }
    assert forall|k1: int, k2: int|
        0 <= k1 < k2 < b.open_upvalues@.len() implies #[trigger] b.open_slot(k1)
        > #[trigger] b.open_slot(k2) by {
        assert(a.heap.is_upvalue(a.open_upvalues@[k1] as int));
        assert(a.heap.is_upvalue(a.open_upvalues@[k2] as int));
        assert(b.open_slot(k1) == a.open_slot(k1));
        assert(b.open_slot(k2) == a.open_slot(k2));
        assert(a.open_slot(k1) > a.open_slot(k2));
    }
}

/// What one dispatched instruction asks of the loop: go on, or halt because
/// the script returned.
#[derive(Debug, Clone, Copy, PartialEq, Eq, Structural)]
pub enum Flow {
    Next,
    Halt,
}

impl Vm {
    /// Finds or creates the open upvalue for a live stack slot, keeping the
    /// open list strictly descending.
    fn capture_upvalue(&mut self, slot: usize) -> (r: usize)
        requires
            old(self).wf(),
            slot < old(self).stack@.len(),
        ensures
            final(self).wf(),
            final(self).stack == old(self).stack,
            final(self).frames == old(self).frames,
            final(self).output == old(self).output,
            final(self).init_name == old(self).init_name,
            final(self).heap.extends(old(self).heap),
            final(self).heap.globals == old(self).heap.globals,
            final(self).heap.strings == old(self).heap.strings,
            final(self).heap.is_upvalue(r as int),
            final(self).heap.upvalue_state(r as int) == UpvalueState::Open(slot),
    {
        let n = self.open_upvalues.len();
        let mut k: usize = 0;
        loop
            invariant
                self.wf(),
                self == old(self),
                n == self.open_upvalues@.len(),
                k <= n,
                forall|j: int| 0 <= j < k ==> #[trigger] self.open_slot(j) > slot,
            ensures
                self == old(self),
                k <= n,
                forall|j: int| 0 <= j < k ==> #[trigger] self.open_slot(j) > slot,
                k < n ==> self.open_slot(k as int) <= slot,
            decreases n - k,
        {
            if k >= n {
                break;
            }
            let uv = self.open_upvalues[k];
            let s = match &self.heap.objects[uv] {
                Some(Obj::Upvalue(UpvalueState::Open(s))) => *s,
                _ => {
                    proof {
                        assert(false);
                    }
                    0
                },
            };
            if s <= slot {
                break;
            }
            k = k + 1;
        }
        if k < n {
            let uv = self.open_upvalues[k];
            let s = match &self.heap.objects[uv] {
                Some(Obj::Upvalue(UpvalueState::Open(s))) => *s,
                _ => {
                    proof {
                        assert(false);
                    }
                    0
                },
            };
            if s == slot {
                return uv;
            }
            proof {
                assert(self.open_slot(k as int) < slot as int);
            }
        }
        // No open upvalue for this slot yet: everything at `k` and beyond
        // sits at lower slots, so the fresh upvalue belongs right here.
        let ghost pre = *self;
        let uv = self.heap.allocate_obj(Obj::Upvalue(UpvalueState::Open(slot)), 32);
        proof {
            let mid = Vm { heap: self.heap, ..pre };
            assert(mid == *self);
            lemma_vm_extend(pre, *self);
        }
        let ghost mid = *self;
        self.open_upvalues.insert(k, uv);
        proof {
            assert forall|j: int|
                0 <= j < mid.open_upvalues@.len() implies #[trigger] mid.open_slot(j)
                == pre.open_slot(j) by {
                assert(pre.heap.is_upvalue(pre.open_upvalues@[j] as int));
            }
            assert forall|j: int|
                0 <= j < self.open_upvalues@.len() implies self.heap.is_upvalue(
                #[trigger] self.open_upvalues@[j] as int,
            ) && self.heap.upvalue_state(self.open_upvalues@[j] as int) is Open by {
                if j < k {
                    assert(self.open_upvalues@[j] == mid.open_upvalues@[j]);
                    assert(mid.heap.is_upvalue(mid.open_upvalues@[j] as int));
                } else if j == k {
                    assert(self.open_upvalues@[j] == uv);
                } else {
                    assert(self.open_upvalues@[j] == mid.open_upvalues@[j - 1]);
                    assert(mid.heap.is_upvalue(mid.open_upvalues@[j - 1] as int));
                }
            }
            assert forall|j: int|
                0 <= j < self.open_upvalues@.len() implies #[trigger] self.open_slot(j)
                < self.stack@.len() by {
                if j < k {
                    assert(self.open_slot(j) == mid.open_slot(j));
                    assert(mid.open_slot(j) < mid.stack@.len());
                } else if j == k {
                    assert(self.open_slot(j) == slot as int);
                } else {
                    assert(self.open_slot(j) == mid.open_slot(j - 1));
                    assert(mid.open_slot(j - 1) < mid.stack@.len());
                }
            }
            assert forall|j1: int, j2: int|
                0 <= j1 < j2 < self.open_upvalues@.len() implies #[trigger] self.open_slot(j1)
                > #[trigger] self.open_slot(j2) by {
                let s1 = if j1 < k {
                    mid.open_slot(j1)
                } else if j1 == k {
                    slot as int
                } else {
                    mid.open_slot(j1 - 1)
                };
                let s2 = if j2 < k {
                    mid.open_slot(j2)
                } else if j2 == k {
                    slot as int
                } else {
                    mid.open_slot(j2 - 1)
                };
                assert(self.open_slot(j1) == s1);
                assert(self.open_slot(j2) == s2);
                if j1 < k && j2 == k {
                    assert(mid.open_slot(j1) > slot as int);
                } else if j1 < k && j2 > k {
                    assert(mid.open_slot(j1) > slot as int);
                    assert(mid.open_slot(j2 - 1) <= slot as int) by {
                        if j2 - 1 > k {
                            assert(mid.open_slot(k as int) > mid.open_slot(j2 - 1));
                        }
                    }
                } else if j1 == k && j2 > k {
                    assert(mid.open_slot(j2 - 1) <= slot as int) by {
                        if j2 - 1 > k {
                            assert(mid.open_slot(k as int) > mid.open_slot(j2 - 1));
                        }
                    }
                    assert(mid.open_slot(j2 - 1) < slot as int || mid.open_slot(j2 - 1) == slot
                        as int);
                    assert(mid.open_slot(j2 - 1) != slot as int) by {
                        if j2 - 1 == k {
                            assert(mid.open_slot(k as int) < slot as int || mid.open_slot(
                                k as int,
                            ) == slot as int);
                        }
                    }
                } else if j1 > k && j2 > k {
                    assert(mid.open_slot(j1 - 1) > mid.open_slot(j2 - 1));
                }
            }
        }
        uv
    }
}

/// The value a successful arithmetic or ordering instruction leaves for two
/// number operands: wrapping arithmetic, truncating division (a zero divisor
/// is instead the division-by-zero error).
pub open spec fn spec_binary_result(op: OpCode, x: i64, y: i64) -> Value {
    match op {
        OpCode::Add => Value::Number(x.wrapping_add(y)),
        OpCode::Subtract => Value::Number(x.wrapping_sub(y)),
        OpCode::Multiply => Value::Number(x.wrapping_mul(y)),
        OpCode::Divide => Value::Number(
            match x.checked_div(y) {
                Some(q) => q,
                None => x,
            },
        ),
        OpCode::Greater => Value::Bool(x > y),
        OpCode::Less => Value::Bool(x < y),
        _ => Value::Nil,
    }
}

/// The content of a string slot, or nothing when the slot holds no string.
pub open spec fn spec_str_or_empty(h: Heap, i: usize) -> Seq<u8> {
    if i < h.objects@.len() {
        match h.objects@[i as int] {
            Some(Obj::Str(cs)) => cs@,
            _ => Seq::empty(),
        }
    } else {
        Seq::empty()
    }
}

/// How a function renders: `<fn name>`, or `<script>` for the script.
pub open spec fn spec_render_fn_name(h: Heap, name: Option<usize>) -> Seq<u8> {
    match name {
        Some(n) => "<fn ".spec_bytes() + spec_str_or_empty(h, n) + ">".spec_bytes(),
        None => "<script>".spec_bytes(),
    }
}

/// How `print` shows a value, over the heap model.
pub open spec fn spec_render(h: Heap, v: Value) -> Seq<u8> {
    match v {
        Value::Nil => "nil".spec_bytes(),
        Value::Bool(b) => if b {
            "true".spec_bytes()
        } else {
            "false".spec_bytes()
        },
        Value::Number(n) => dec_bytes_signed(n as int),
        Value::Object(i) => if i < h.objects@.len() {
            match h.objects@[i as int] {
                Some(Obj::Str(cs)) => cs@,
                Some(Obj::Function(f)) => spec_render_fn_name(h, f.name),
                Some(Obj::Closure { function, .. }) => if function < h.objects@.len() {
                    match h.objects@[function as int] {
                        Some(Obj::Function(f)) => spec_render_fn_name(h, f.name),
                        _ => "<fn>".spec_bytes(),
                    }
                } else {
                    "<fn>".spec_bytes()
                },
                Some(Obj::Class { name, .. }) => spec_str_or_empty(h, name),
                Some(Obj::Instance { class, .. }) => if class < h.objects@.len() {
                    match h.objects@[class as int] {
                        Some(Obj::Class { name, .. }) => spec_str_or_empty(h, name)
                            + " instance".spec_bytes(),
                        _ => spec_str_or_empty(h, 0) + " instance".spec_bytes(),
                    }
                } else {
                    spec_str_or_empty(h, 0) + " instance".spec_bytes()
                },
                Some(Obj::BoundMethod { method, .. }) => {
                    let fu: usize = if method < h.objects@.len() {
                        match h.objects@[method as int] {
                            Some(Obj::Closure { function, .. }) => function,
                            _ => 0,
                        }
                    } else {
                        0
                    };
                    if fu < h.objects@.len() {
                        match h.objects@[fu as int] {
                            Some(Obj::Function(f)) => spec_render_fn_name(h, f.name),
                            _ => "<fn>".spec_bytes(),
                        }
                    } else {
                        "<fn>".spec_bytes()
                    }
                },
                Some(Obj::Upvalue(_)) => "upvalue".spec_bytes(),
                None => "nil".spec_bytes(),
            }
        } else {
            "nil".spec_bytes()
        },
    }
}

impl Vm {
    /// Renders a value the way `print` shows it.
    fn render_value(&self, v: Value) -> (r: Vec<u8>)
        requires
            self.wf(),
            self.heap.valid_value(v),
        ensures
            r@ == spec_render(self.heap, v),
    {
        match v {
            Value::Nil => "nil".as_bytes_vec(),
            Value::Bool(b) => {
                if b {
                    "true".as_bytes_vec()
                } else {
                    "false".as_bytes_vec()
                }
            },
            Value::Number(n) => render_i64(n),
            Value::Object(i) => {
                proof {
                    assert(self.heap.obj_wf(self.heap.obj_at(i as int)));
                }
                match &self.heap.objects[i] {
                    Some(Obj::Str(cs)) => {
                        let mut out: Vec<u8> = Vec::new();
                        append_bytes(&mut out, cs);
                        proof {
                            assert(out@ =~= spec_render(self.heap, v));
                        }
                        out
                    },
                    Some(Obj::Function(f)) => self.render_function_name(f.name),
                    Some(Obj::Closure { function, .. }) => {
                        let fu = *function;
                        match &self.heap.objects[fu] {
                            Some(Obj::Function(f)) => self.render_function_name(f.name),
                            _ => "<fn>".as_bytes_vec(),
                        }
                    },
                    Some(Obj::Class { name, .. }) => self.str_copy_or_empty(*name),
                    Some(Obj::Instance { class, .. }) => {
                        let cname = match &self.heap.objects[*class] {
                            Some(Obj::Class { name, .. }) => *name,
                            _ => 0,
                        };
                        let mut out = self.str_copy_or_empty(cname);
                        let tail = " instance".as_bytes_vec();
                        append_bytes(&mut out, &tail);
                        proof {
                            assert(out@ =~= spec_render(self.heap, v));
                        }
                        out
                    },
                    Some(Obj::BoundMethod { method, .. }) => {
                        let m = *method;
                        let fu = match &self.heap.objects[m] {
                            Some(Obj::Closure { function, .. }) => *function,
                            _ => 0,
                        };
                        match &self.heap.objects[fu] {
                            Some(Obj::Function(f)) => self.render_function_name(f.name),
                            _ => "<fn>".as_bytes_vec(),
                        }
                    },
                    Some(Obj::Upvalue(_)) => "upvalue".as_bytes_vec(),
                    None => "nil".as_bytes_vec(),
                }
            },
        }
    }

    /// Renders a function as `<fn name>`, or `<script>` for the script.
    fn render_function_name(&self, name: Option<usize>) -> (r: Vec<u8>)
        requires
            self.wf(),
        ensures
            r@ == spec_render_fn_name(self.heap, name),
    {
        match name {
            Some(n) => {
                let mut out = "<fn ".as_bytes_vec();
                let chars = self.str_copy_or_empty(n);
                append_bytes(&mut out, &chars);
                let tail = ">".as_bytes_vec();
                append_bytes(&mut out, &tail);
                proof {
                    assert(out@ =~= spec_render_fn_name(self.heap, name));
                }
                out
            },
            None => "<script>".as_bytes_vec(),
        }
    }

    /// The content of a string slot, or nothing when the slot holds none.
    fn str_copy_or_empty(&self, i: usize) -> (r: Vec<u8>)
        requires
            self.wf(),
        ensures
            r@ == spec_str_or_empty(self.heap, i),
    {
        if i < self.heap.objects.len() {
            match &self.heap.objects[i] {
                Some(Obj::Str(cs)) => {
                    let mut out: Vec<u8> = Vec::new();
                    append_bytes(&mut out, cs);
                    proof {
                        assert(out@ =~= spec_str_or_empty(self.heap, i));
                    }
                    out
                },
                _ => Vec::new(),
            }
        } else {
            Vec::new()
        }
    }

    /// Pops two string operands and pushes their concatenation, interned.
    pub fn concatenate(&mut self, a: usize, b: usize) -> (r: Result<(), RuntimeError>)
        requires
            old(self).wf(),
            old(self).heap.is_str(a as int),
            old(self).heap.is_str(b as int),
            old(self).stack@.len() >= 2,
        ensures
            final(self).wf(),
            final(self).frames == old(self).frames,
            final(self).output == old(self).output,
            final(self).init_name == old(self).init_name,
            r is Ok,
            final(self).stack@.len() == old(self).stack@.len() - 1,
            final(self).stack@.drop_last() == old(self).stack@.drop_last().drop_last(),
            final(self).stack@.last() matches Value::Object(c) && final(self).heap.str_chars(
                c as int,
            ) == old(self).heap.str_chars(a as int) + old(self).heap.str_chars(b as int),
    {
        let mut chars = self.str_copy(a);
        let bchars = self.str_copy(b);
        append_bytes(&mut chars, &bchars);
        let ghost pre = *self;
        let c = self.heap.intern_string(chars);
        proof {
            let mid = Vm { heap: self.heap, ..pre };
            assert(mid == *self);
            lemma_vm_extend(pre, *self);
        }
        let first = match self.pop() {
            Ok(v) => v,
            Err(e) => {
                return Err(e);
            },
        };
        let second = match self.pop() {
            Ok(v) => v,
            Err(e) => {
                return Err(e);
            },
        };
        proof {
            assert(self.heap.str_chars(c as int) =~= old(self).heap.str_chars(a as int) + old(
                self,
            ).heap.str_chars(b as int));
        }
        let ghost pre_push = self.stack@;
        let res = self.push(Value::Object(c));
        proof {
            assert(pre_push =~= old(self).stack@.drop_last().drop_last());
            assert(self.stack@.drop_last() =~= pre_push);
        }
        res
    }

    /// Executes one binary instruction over the two topmost values, which
    /// are popped only when the operation succeeds. Arithmetic and ordering
    /// need numbers; `+` also concatenates two strings; equality compares
    /// any two values, objects by identity.
    pub fn binary_instruction(&mut self, op: OpCode) -> (r: Result<(), RuntimeError>)
        requires
            old(self).wf(),
            old(self).frames@.len() >= 1,
            op == OpCode::Add || op == OpCode::Subtract || op == OpCode::Multiply || op
                == OpCode::Divide || op == OpCode::Equal || op == OpCode::Greater || op
                == OpCode::Less,
        ensures
            final(self).wf(),
            final(self).frames == old(self).frames,
            final(self).output == old(self).output,
            final(self).init_name == old(self).init_name,
            old(self).stack@.len() >= 2 && (op == OpCode::Subtract || op == OpCode::Multiply
                || op == OpCode::Greater || op == OpCode::Less) && !(old(self).stack@[old(
                self,
            ).stack@.len() - 2] is Number && old(self).stack@[old(self).stack@.len() - 1]
                is Number) ==> (r matches Err(e) && e.kind
                == RuntimeErrorKind::OperandsMustBeNumbers),
            old(self).stack@.len() >= 2 && op == OpCode::Add && !(old(self).stack@[old(
                self,
            ).stack@.len() - 2] is Number && old(self).stack@[old(self).stack@.len() - 1]
                is Number) && !((old(self).stack@[old(self).stack@.len() - 2] matches
            Value::Object(x) && old(self).heap.is_str(x as int)) && (old(self).stack@[old(
                self,
            ).stack@.len() - 1] matches Value::Object(y) && old(self).heap.is_str(y as int)))
                ==> (r matches Err(e) && e.kind
                == RuntimeErrorKind::OperandsMustBeNumbersOrStrings),
            old(self).stack@.len() >= 2 && op == OpCode::Divide && old(self).stack@[old(
                self,
            ).stack@.len() - 2] is Number && old(self).stack@[old(self).stack@.len() - 1]
                == Value::Number(0i64) ==> (r matches Err(e) && e.kind
                == RuntimeErrorKind::DivisionByZero),
            old(self).stack@.len() >= 2 && op == OpCode::Equal ==> r is Ok && final(self).stack@
                =~= old(self).stack@.drop_last().drop_last().push(
                Value::Bool(
                    old(self).stack@[old(self).stack@.len() - 2] == old(self).stack@[old(
                        self,
                    ).stack@.len() - 1],
                ),
            ),
            old(self).stack@.len() >= 2 ==> match (
                old(self).stack@[old(self).stack@.len() - 2],
                old(self).stack@[old(self).stack@.len() - 1],
            ) {
                (Value::Number(x), Value::Number(y)) => match op {
                    OpCode::Add => r is Ok && final(self).stack@ == old(
                        self,
                    ).stack@.drop_last().drop_last().push(Value::Number(x.wrapping_add(y))),
                    OpCode::Subtract => r is Ok && final(self).stack@ == old(
                        self,
                    ).stack@.drop_last().drop_last().push(Value::Number(x.wrapping_sub(y))),
                    OpCode::Multiply => r is Ok && final(self).stack@ == old(
                        self,
                    ).stack@.drop_last().drop_last().push(Value::Number(x.wrapping_mul(y))),
                    OpCode::Divide => y != 0 ==> r is Ok && final(self).stack@ == old(
                        self,
                    ).stack@.drop_last().drop_last().push(
                        Value::Number(
                            match x.checked_div(y) {
                                Some(q) => q,
                                None => x,
                            },
                        ),
                    ),
                    OpCode::Greater => r is Ok && final(self).stack@ == old(
                        self,
                    ).stack@.drop_last().drop_last().push(Value::Bool(x > y)),
                    OpCode::Less => r is Ok && final(self).stack@ == old(
                        self,
                    ).stack@.drop_last().drop_last().push(Value::Bool(x < y)),
                    _ => true,
                },
                (Value::Object(ai), Value::Object(bi)) => (op == OpCode::Add && old(
                    self,
                ).heap.is_str(ai as int) && old(self).heap.is_str(bi as int)) ==> (r is Ok
                    && final(self).stack@.len() == old(self).stack@.len() - 1
                    && final(self).stack@.drop_last() == old(self).stack@.drop_last().drop_last()
                    && match final(self).stack@.last() {
                    Value::Object(c) => final(self).heap.str_chars(c as int) == old(
                        self,
                    ).heap.str_chars(ai as int) + old(self).heap.str_chars(bi as int),
                    _ => false,
                }),
                _ => true,
            },
            r is Err ==> *final(self) == *old(self),
    {
        let a = match self.peek_at(1) {
            Ok(v) => v,
            Err(e) => {
                return Err(e);
            },
        };
        let b = match self.peek_at(0) {
            Ok(v) => v,
            Err(e) => {
                return Err(e);
            },
        };
        if op == OpCode::Equal {
            let _ = match self.pop() {
                Ok(v) => v,
                Err(e) => {
                    return Err(e);
                },
            };
            let _ = match self.pop() {
                Ok(v) => v,
                Err(e) => {
                    return Err(e);
                },
            };
            return self.push(Value::Bool(a == b));
        }
        match (a, b) {
            (Value::Number(x), Value::Number(y)) => {
                let result: Value = if op == OpCode::Add {
                    Value::Number(x.wrapping_add(y))
                } else if op == OpCode::Subtract {
                    Value::Number(x.wrapping_sub(y))
                } else if op == OpCode::Multiply {
                    Value::Number(x.wrapping_mul(y))
                } else if op == OpCode::Divide {
                    match x.checked_div(y) {
                        Some(q) => Value::Number(q),
                        None => {
                            if y == 0 {
                                let e = self.error(RuntimeErrorKind::DivisionByZero);
                                return Err(e);
                            }
                            // The only remaining overflow wraps to itself.
                            Value::Number(x)
                        },
                    }
                } else if op == OpCode::Greater {
                    Value::Bool(x > y)
                } else {
                    Value::Bool(x < y)
                };
                let _ = match self.pop() {
                    Ok(v) => v,
                    Err(e) => {
                        return Err(e);
                    },
                };
                let _ = match self.pop() {
                    Ok(v) => v,
                    Err(e) => {
                        return Err(e);
                    },
                };
                self.push(result)
            },
            (Value::Object(ai), Value::Object(bi)) => {
                if op == OpCode::Add {
                    let a_is_str = matches!(&self.heap.objects[ai], Some(Obj::Str(_)));
                    let b_is_str = matches!(&self.heap.objects[bi], Some(Obj::Str(_)));
                    if a_is_str && b_is_str {
                        return self.concatenate(ai, bi);
                    }
                    let e = self.error(RuntimeErrorKind::OperandsMustBeNumbersOrStrings);
                    Err(e)
                } else {
                    let e = self.error(RuntimeErrorKind::OperandsMustBeNumbers);
                    Err(e)
                }
            },
            _ => {
                if op == OpCode::Add {
                    let e = self.error(RuntimeErrorKind::OperandsMustBeNumbersOrStrings);
                    Err(e)
                } else {
                    let e = self.error(RuntimeErrorKind::OperandsMustBeNumbers);
                    Err(e)
                }
            },
        }
    }

    /// Executes one unary instruction on the top of the stack: negation of a
    /// number, or logical not of any value by truthiness.
    pub fn unary_instruction(&mut self, op: OpCode) -> (r: Result<(), RuntimeError>)
        requires
            old(self).wf(),
            old(self).frames@.len() >= 1,
            op == OpCode::Negate || op == OpCode::Not,
        ensures
            final(self).wf(),
            final(self).frames == old(self).frames,
            final(self).output == old(self).output,
            final(self).init_name == old(self).init_name,
            old(self).stack@.len() >= 1 && op == OpCode::Negate && !(old(self).stack@.last()
                is Number) ==> (r matches Err(e) && e.kind
                == RuntimeErrorKind::OperandMustBeNumber),
            old(self).stack@.len() >= 1 && op == OpCode::Not ==> r is Ok && final(self).stack@
                == old(self).stack@.drop_last().push(
                Value::Bool(!spec_truthy(old(self).stack@.last())),
            ),
            old(self).stack@.len() >= 1 && op == OpCode::Negate ==> match old(self).stack@.last() {
                Value::Number(x) => r is Ok && final(self).stack@ == old(
                    self,
                ).stack@.drop_last().push(Value::Number(0i64.wrapping_sub(x))),
                _ => true,
            },
            r is Err ==> *final(self) == *old(self),
    {
        let v = match self.peek_at(0) {
            Ok(v) => v,
            Err(e) => {
                return Err(e);
            },
        };
        if op == OpCode::Not {
            let _ = match self.pop() {
                Ok(v) => v,
                Err(e) => {
                    return Err(e);
                },
            };
            return self.push(v.not());
        }
        match v {
            Value::Number(x) => {
                let _ = match self.pop() {
                    Ok(v) => v,
                    Err(e) => {
                        return Err(e);
                    },
                };
                self.push(Value::Number(0i64.wrapping_sub(x)))
            },
            _ => {
                let e = self.error(RuntimeErrorKind::OperandMustBeNumber);
                Err(e)
            },
        }
    }
}

/// The machine stays well-formed when only the call frames changed, each
/// still running a live closure.
proof fn lemma_vm_frames(a: Vm, b: Vm)
    requires
        a.wf(),
        b.heap == a.heap,
        b.stack == a.stack,
        b.open_upvalues == a.open_upvalues,
        b.init_name == a.init_name,
        forall|f: int|
            0 <= f < b.frames@.len() ==> a.heap.is_closure(
                (#[trigger] b.frames@[f]).closure as int,
            ),
        b.frames@.len() >= 1 ==> b.frames@[0].slots == 0,
    ensures
        b.wf(),
{
    assert forall|i: int| 0 <= i < b.stack@.len() implies b.heap.valid_value(
        #[trigger] b.stack@[i],
    ) by {
        assert(a.heap.valid_value(a.stack@[i]));
    }
    assert forall|k: int| 0 <= k < b.open_upvalues@.len() implies b.heap.is_upvalue(
        #[trigger] b.open_upvalues@[k] as int,
    ) && b.heap.upvalue_state(b.open_upvalues@[k] as int) is Open by {
        assert(a.heap.is_upvalue(a.open_upvalues@[k] as int));
    }
    assert forall|k: int| 0 <= k < b.open_upvalues@.len() implies #[trigger] b.open_slot(k)
        < b.stack@.len() by {
        assert(b.open_slot(k) == a.open_slot(k));
        assert(a.open_slot(k) < a.stack@.len());
    }
    assert forall|k1: int, k2: int|
        0 <= k1 < k2 < b.open_upvalues@.len() implies #[trigger] b.open_slot(k1)
        > #[trigger] b.open_slot(k2) by {
        assert(b.open_slot(k1) == a.open_slot(k1));
        assert(b.open_slot(k2) == a.open_slot(k2));
        assert(a.open_slot(k1) > a.open_slot(k2));
    }
}

impl Vm {
    /// Reads the byte at the current frame's cursor and steps past it.
    fn read_byte_operand(&mut self) -> (r: Result<u8, RuntimeError>)
        requires
            old(self).wf(),
            old(self).frames@.len() >= 1,
        ensures
            final(self).wf(),
            final(self).heap == old(self).heap,
            final(self).stack == old(self).stack,
            final(self).open_upvalues == old(self).open_upvalues,
            final(self).output == old(self).output,
            final(self).init_name == old(self).init_name,
            final(self).frames@.len() == old(self).frames@.len(),
            forall|f: int|
                0 <= f < final(self).frames@.len() ==> (#[trigger] final(self).frames@[f]).closure
                    == old(self).frames@[f].closure && final(self).frames@[f].slots == old(
                    self,
                ).frames@[f].slots,
            forall|f: int|
                0 <= f < final(self).frames@.len() - 1 ==> #[trigger] final(self).frames@[f]
                    == old(self).frames@[f],
            r matches Ok(b) ==> old(self).cur_ip() < old(self).cur_code().len() && b == old(
                self,
            ).cur_code()[old(self).cur_ip()] && final(self).cur_ip() == old(self).cur_ip() + 1,
            r is Err ==> *final(self) == *old(self) && old(self).cur_ip() >= old(
                self,
            ).cur_code().len(),
    {
        let fi = self.frames.len() - 1;
        let closure = self.frames[fi].closure;
        let func = self.closure_function(closure);
        let ip = self.frames[fi].ip.pos;
        let b_opt: Option<u8> = match &self.heap.objects[func] {
            Some(Obj::Function(f)) => {
                if ip < f.chunk.code.len() {
                    Some(f.chunk.code[ip])
                } else {
                    None
                }
            },
            _ => {
                proof {
                    assert(false);
                }
                None
            },
        };
        match b_opt {
            Some(b) => {
                if ip < usize::MAX {
                    self.frames[fi].ip.pos = ip + 1;
                }
                proof {
                    lemma_vm_frames(*old(self), *self);
                }
                Ok(b)
            },
            None => {
                let e = self.error(RuntimeErrorKind::InvalidBytecode);
                Err(e)
            },
        }
    }

    /// Reads a big-endian 16-bit operand.
    fn read_short_operand(&mut self) -> (r: Result<u16, RuntimeError>)
        requires
            old(self).wf(),
            old(self).frames@.len() >= 1,
        ensures
            final(self).wf(),
            final(self).heap == old(self).heap,
            final(self).stack == old(self).stack,
            final(self).open_upvalues == old(self).open_upvalues,
            final(self).output == old(self).output,
            final(self).init_name == old(self).init_name,
            final(self).frames@.len() == old(self).frames@.len(),
            forall|f: int|
                0 <= f < final(self).frames@.len() ==> (#[trigger] final(self).frames@[f]).closure
                    == old(self).frames@[f].closure && final(self).frames@[f].slots == old(
                    self,
                ).frames@[f].slots,
            forall|f: int|
                0 <= f < final(self).frames@.len() - 1 ==> #[trigger] final(self).frames@[f]
                    == old(self).frames@[f],
            r matches Ok(v) ==> old(self).cur_ip() + 2 <= old(self).cur_code().len() && v
                == spec_u16_of(
                old(self).cur_code()[old(self).cur_ip()],
                old(self).cur_code()[old(self).cur_ip() + 1],
            ) && final(self).cur_ip() == old(self).cur_ip() + 2,
            r is Err ==> old(self).cur_ip() + 2 > old(self).cur_code().len(),
    {
        let hi = match self.read_byte_operand() {
            Ok(b) => b,
            Err(e) => {
                return Err(e);
            },
        };
        let lo = match self.read_byte_operand() {
            Ok(b) => b,
            Err(e) => {
                return Err(e);
            },
        };
        Ok((hi as u16) * 256 + (lo as u16))
    }

    /// Reads a one-byte constant index and the constant it names.
    fn read_constant(&mut self) -> (r: Result<Value, RuntimeError>)
        requires
            old(self).wf(),
            old(self).frames@.len() >= 1,
        ensures
            final(self).wf(),
            final(self).heap == old(self).heap,
            final(self).stack == old(self).stack,
            final(self).open_upvalues == old(self).open_upvalues,
            final(self).output == old(self).output,
            final(self).init_name == old(self).init_name,
            final(self).frames@.len() == old(self).frames@.len(),
            forall|f: int|
                0 <= f < final(self).frames@.len() ==> (#[trigger] final(self).frames@[f]).closure
                    == old(self).frames@[f].closure && final(self).frames@[f].slots == old(
                    self,
                ).frames@[f].slots,
            forall|f: int|
                0 <= f < final(self).frames@.len() - 1 ==> #[trigger] final(self).frames@[f]
                    == old(self).frames@[f],
            r matches Ok(v) ==> final(self).heap.valid_value(v),
            r matches Ok(v) ==> old(self).cur_ip() < old(self).cur_code().len() && (old(
                self,
            ).cur_code()[old(self).cur_ip()] as int) < old(self).cur_consts().len() && v == old(
                self,
            ).cur_consts()[old(self).cur_code()[old(self).cur_ip()] as int] && final(self).cur_ip()
                == old(self).cur_ip() + 1,
            r is Err ==> old(self).cur_ip() >= old(self).cur_code().len() || (old(
                self,
            ).cur_code()[old(self).cur_ip()] as int) >= old(self).cur_consts().len(),
    {
        let idx = match self.read_byte_operand() {
            Ok(b) => b,
            Err(e) => {
                return Err(e);
            },
        };
        let fi = self.frames.len() - 1;
        let closure = self.frames[fi].closure;
        let func = self.closure_function(closure);
        proof {
            assert(self.heap.obj_wf(self.heap.obj_at(func as int)));
        }
        let v_opt: Option<Value> = match &self.heap.objects[func] {
            Some(Obj::Function(f)) => {
                if (idx as usize) < f.chunk.constants.len() {
                    Some(f.chunk.constants[idx as usize])
                } else {
                    None
                }
            },
            _ => {
                proof {
                    assert(false);
                }
                None
            },
        };
        match v_opt {
            Some(v) => Ok(v),
            None => {
                let e = self.error(RuntimeErrorKind::InvalidBytecode);
                Err(e)
            },
        }
    }

    /// Reads a one-byte constant index that must name an interned string
    /// (a variable, property or class name).
    fn read_name_constant(&mut self) -> (r: Result<usize, RuntimeError>)
        requires
            old(self).wf(),
            old(self).frames@.len() >= 1,
        ensures
            final(self).wf(),
            final(self).heap == old(self).heap,
            final(self).stack == old(self).stack,
            final(self).open_upvalues == old(self).open_upvalues,
            final(self).output == old(self).output,
            final(self).init_name == old(self).init_name,
            final(self).frames@.len() == old(self).frames@.len(),
            forall|f: int|
                0 <= f < final(self).frames@.len() ==> (#[trigger] final(self).frames@[f]).closure
                    == old(self).frames@[f].closure && final(self).frames@[f].slots == old(
                    self,
                ).frames@[f].slots,
            forall|f: int|
                0 <= f < final(self).frames@.len() - 1 ==> #[trigger] final(self).frames@[f]
                    == old(self).frames@[f],
            r matches Ok(n) ==> final(self).heap.is_str(n as int),
            r matches Ok(n) ==> old(self).cur_ip() < old(self).cur_code().len() && (old(
                self,
            ).cur_code()[old(self).cur_ip()] as int) < old(self).cur_consts().len() && old(
                self,
            ).cur_consts()[old(self).cur_code()[old(self).cur_ip()] as int] == Value::Object(n)
                && final(self).cur_ip() == old(self).cur_ip() + 1,
            r is Err ==> old(self).cur_ip() >= old(self).cur_code().len() || (old(
                self,
            ).cur_code()[old(self).cur_ip()] as int) >= old(self).cur_consts().len() || (match old(
                self,
            ).cur_consts()[old(self).cur_code()[old(self).cur_ip()] as int] {
                Value::Object(n) => !old(self).heap.is_str(n as int),
                _ => true,
            }),
    {
        let v = match self.read_constant() {
            Ok(v) => v,
            Err(e) => {
                return Err(e);
            },
        };
        match v {
            Value::Object(n) => {
                let is_string = matches!(&self.heap.objects[n], Some(Obj::Str(_)));
                if is_string {
                    Ok(n)
                } else {
                    let e = self.error(RuntimeErrorKind::InvalidBytecode);
                    Err(e)
                }
            },
            _ => {
                let e = self.error(RuntimeErrorKind::InvalidBytecode);
                Err(e)
            },
        }
    }

    /// Calls a value: a closure directly, a bound method on its receiver, or
    /// a class to make a fresh instance (running `init` when the class has
    /// one). Anything else is not callable.
    fn call_value(&mut self, callee: Value, arg_count: u8) -> (r: Result<(), RuntimeError>)
        requires
            old(self).wf(),
            old(self).frames@.len() >= 1,
            old(self).stack@.len() > arg_count as int,
            old(self).heap.valid_value(callee),
        ensures
            final(self).wf(),
            final(self).frames@.len() >= 1,
            final(self).output == old(self).output,
            final(self).init_name == old(self).init_name,
            // Anything but a closure, a class or a bound method is not
            // callable; a closure called with the wrong argument count is
            // exactly the arity error.
            match callee {
                Value::Object(i) => {
                    &&& (old(self).heap.is_closure(i as int) && arg_count != old(
                        self,
                    ).heap.function_of(old(self).heap.closure_function(i as int) as int).arity
                        ==> (r matches Err(e) && e.kind == (RuntimeErrorKind::WrongArity {
                        expected: old(self).heap.function_of(
                            old(self).heap.closure_function(i as int) as int,
                        ).arity,
                        got: arg_count,
                    })))
                    &&& (old(self).heap.is_closure(i as int) && arg_count == old(
                        self,
                    ).heap.function_of(old(self).heap.closure_function(i as int) as int).arity
                        && old(self).frames@.len() < FRAMES_MAX ==> r is Ok && final(self).frames@
                        == old(self).frames@.push(
                        CallFrame {
                            closure: i,
                            ip: crate::chunk::Ip { pos: 0 },
                            slots: (old(self).stack@.len() - arg_count - 1) as usize,
                        },
                    ) && final(self).stack == old(self).stack && final(self).heap == old(
                        self,
                    ).heap)
                    &&& (old(self).heap.live(i as int) && !(old(self).heap.obj_at(i as int)
                        is Closure) && !(old(self).heap.obj_at(i as int) is Class) && !(old(
                        self,
                    ).heap.obj_at(i as int) is BoundMethod) ==> (r matches Err(e) && e.kind
                        == RuntimeErrorKind::NotCallable))
                },
                _ => r matches Err(e) && e.kind == RuntimeErrorKind::NotCallable,
            },
    {
        let i = match callee {
            Value::Object(i) => i,
            _ => {
                let e = self.error(RuntimeErrorKind::NotCallable);
                return Err(e);
            },
        };
        let kind: u8 = match &self.heap.objects[i] {
            Some(Obj::Closure { .. }) => 1,
            Some(Obj::Class { .. }) => 2,
            Some(Obj::BoundMethod { .. }) => 3,
            _ => 0,
        };
        if kind == 1 {
            return self.call_closure(i, arg_count);
        }
        if kind == 3 {
            proof {
                assert(self.heap.obj_wf(self.heap.obj_at(i as int)));
            }
            let (receiver, method) = match &self.heap.objects[i] {
                Some(Obj::BoundMethod { receiver, method }) => (*receiver, *method),
                _ => {
                    proof {
                        assert(false);
                    }
                    (Value::Nil, 0)
                },
            };
            let slot = self.stack.len() - 1 - (arg_count as usize);
            self.set_slot(slot, receiver);
            return self.call_closure(method, arg_count);
        }
        if kind == 2 {
            let ghost pre = *self;
            let inst = self.heap.allocate_obj(
                Obj::Instance { class: i, fields: Vec::new() },
                48,
            );
            proof {
                let mid = Vm { heap: self.heap, ..pre };
                assert(mid == *self);
                lemma_vm_extend(pre, *self);
            }
            let slot = self.stack.len() - 1 - (arg_count as usize);
            self.set_slot(slot, Value::Object(inst));
            let init = self.heap.get_method(i, self.init_name);
            match init {
                Some(m) => self.call_closure(m, arg_count),
                None => {
                    if arg_count != 0 {
                        let e = self.error(
                            RuntimeErrorKind::WrongArity { expected: 0, got: arg_count },
                        );
                        Err(e)
                    } else {
                        Ok(())
                    }
                },
            }
        } else {
            let e = self.error(RuntimeErrorKind::NotCallable);
            Err(e)
        }
    }

    /// Invokes a named property of the receiver under the arguments: a field
    /// holding a callable, or a method of the receiver's class.
    fn invoke(&mut self, name: usize, arg_count: u8) -> (r: Result<(), RuntimeError>)
        requires
            old(self).wf(),
            old(self).frames@.len() >= 1,
            old(self).stack@.len() > arg_count as int,
            old(self).heap.is_str(name as int),
        ensures
            final(self).wf(),
            final(self).frames@.len() >= 1,
            final(self).output == old(self).output,
            final(self).init_name == old(self).init_name,
            // A property invocation needs an instance as the receiver.
            old(self).stack@.len() > arg_count as int && !(match old(self).stack@[old(
                self,
            ).stack@.len() - 1 - arg_count as int] {
                Value::Object(i) => old(self).heap.is_instance(i as int),
                _ => false,
            }) ==> (r matches Err(e) && e.kind == RuntimeErrorKind::OnlyInstancesHaveProperties),
    {
        let receiver = match self.peek_at(arg_count as usize) {
            Ok(v) => v,
            Err(e) => {
                return Err(e);
            },
        };
        let inst = match receiver {
            Value::Object(i) => i,
            _ => {
                let e = self.error(RuntimeErrorKind::OnlyInstancesHaveProperties);
                return Err(e);
            },
        };
        let is_inst = matches!(&self.heap.objects[inst], Some(Obj::Instance { .. }));
        if !is_inst {
            let e = self.error(RuntimeErrorKind::OnlyInstancesHaveProperties);
            return Err(e);
        }
        match self.heap.get_field(inst, name) {
            Some(v) => {
                let slot = self.stack.len() - 1 - (arg_count as usize);
                self.set_slot(slot, v);
                self.call_value(v, arg_count)
            },
            None => {
                proof {
                    assert(self.heap.obj_wf(self.heap.obj_at(inst as int)));
                }
                let class = match &self.heap.objects[inst] {
                    Some(Obj::Instance { class, .. }) => *class,
                    _ => {
                        proof {
                            assert(false);
                        }
                        0
                    },
                };
                match self.heap.get_method(class, name) {
                    Some(m) => self.call_closure(m, arg_count),
                    None => {
                        let chars = self.str_copy(name);
                        let e = self.error(RuntimeErrorKind::UndefinedProperty(chars));
                        Err(e)
                    },
                }
            },
        }
    }

    /// Replaces the receiver on top of the stack by the named method of a
    /// class, bound to it.
    fn bind_method(&mut self, class: usize, name: usize) -> (r: Result<(), RuntimeError>)
        requires
            old(self).wf(),
            old(self).frames@.len() >= 1,
            old(self).heap.is_class(class as int),
            old(self).heap.is_str(name as int),
            old(self).stack@.len() >= 1,
        ensures
            final(self).wf(),
            final(self).frames == old(self).frames,
            final(self).output == old(self).output,
            final(self).init_name == old(self).init_name,
            // A class without the method is exactly the undefined-property
            // error, carrying the name; with it, the receiver is replaced by
            // the bound method.
            assoc_value(old(self).heap.class_methods(class as int), name) is None ==> (r matches Err(e) && match e.kind {
                RuntimeErrorKind::UndefinedProperty(nm) => nm@ == old(self).heap.str_chars(
                    name as int,
                ),
                _ => false,
            }) && final(self).stack == old(self).stack,
            assoc_value(old(self).heap.class_methods(class as int), name) is Some && old(self).stack@.len() <= STACK_MAX
                ==> r is Ok && final(self).stack@.len() == old(self).stack@.len() && (final(self).stack@.last() matches Value::Object(bm) && final(self).heap.is_bound_method(
                bm as int,
            ) && final(self).heap.bound_receiver(bm as int) == old(self).stack@.last()),
    {
        match self.heap.get_method(class, name) {
            Some(m) => {
                let receiver = match self.peek_at(0) {
                    Ok(v) => v,
                    Err(e) => {
                        return Err(e);
                    },
                };
                let ghost pre = *self;
                let bm = self.heap.allocate_obj(
                    Obj::BoundMethod { receiver, method: m },
                    40,
                );
                proof {
                    let mid = Vm { heap: self.heap, ..pre };
                    assert(mid == *self);
                    lemma_vm_extend(pre, *self);
                }
                let _ = match self.pop() {
                    Ok(v) => v,
                    Err(e) => {
                        return Err(e);
                    },
                };
                match self.push(Value::Object(bm)) {
                    Ok(()) => Ok(()),
                    Err(e) => Err(e),
                }
            },
            None => {
                let chars = self.str_copy(name);
                let e = self.error(RuntimeErrorKind::UndefinedProperty(chars));
                Err(e)
            },
        }
    }
}

impl Vm {
    /// Fetches and executes one instruction of the current frame. `Halt`
    /// means the script's own frame returned: the machine is then empty.
    #[verifier::rlimit(50)]
    pub fn step(&mut self) -> (r: Result<Flow, RuntimeError>)
        requires
            old(self).wf(),
            old(self).frames@.len() >= 1,
        ensures
            final(self).wf(),
            r == Result::<Flow, RuntimeError>::Ok(Flow::Next) ==> final(self).frames@.len() >= 1,
            r == Result::<Flow, RuntimeError>::Ok(Flow::Halt) ==> final(self).frames@.len() == 0
                && final(self).stack@.len() == 0,
            old(self).output@.is_prefix_of(final(self).output@),
            // The literal instructions push their value.
            old(self).cur_op() == Some(OpCode::Nil) && old(self).stack@.len() < STACK_MAX ==> r
                == Result::<Flow, RuntimeError>::Ok(Flow::Next) && final(self).stack@ == old(
                self,
            ).stack@.push(Value::Nil) && final(self).heap == old(self).heap && final(self).output
                == old(self).output && final(self).cur_ip() == old(self).cur_ip() + 1,
            old(self).cur_op() == Some(OpCode::True) && old(self).stack@.len() < STACK_MAX ==> r
                == Result::<Flow, RuntimeError>::Ok(Flow::Next) && final(self).stack@ == old(
                self,
            ).stack@.push(Value::Bool(true)) && final(self).heap == old(self).heap && final(self).output == old(self).output && final(self).cur_ip() == old(self).cur_ip() + 1,
            old(self).cur_op() == Some(OpCode::False) && old(self).stack@.len() < STACK_MAX ==> r
                == Result::<Flow, RuntimeError>::Ok(Flow::Next) && final(self).stack@ == old(
                self,
            ).stack@.push(Value::Bool(false)) && final(self).heap == old(self).heap && final(self).output == old(self).output && final(self).cur_ip() == old(self).cur_ip() + 1,
            // `Constant` pushes the named constant-pool entry.
            old(self).cur_op() == Some(OpCode::Constant) && old(self).cur_ip() + 2 <= old(
                self,
            ).cur_code().len() && (old(self).cur_code()[old(self).cur_ip() + 1] as int) < old(
                self,
            ).cur_consts().len() && old(self).stack@.len() < STACK_MAX ==> r == Result::<
                Flow,
                RuntimeError,
            >::Ok(Flow::Next) && final(self).stack@ == old(self).stack@.push(
                old(self).cur_consts()[old(self).cur_code()[old(self).cur_ip() + 1] as int],
            ) && final(self).output == old(self).output && final(self).cur_ip() == old(
                self,
            ).cur_ip() + 2,
            // `GetLocal` pushes the frame-relative slot; `SetLocal`
            // overwrites it with the top of the stack, which stays.
            old(self).cur_op() == Some(OpCode::GetLocal) && old(self).cur_ip() + 2 <= old(
                self,
            ).cur_code().len() && old(self).top_frame().slots + (old(self).cur_code()[old(
                self,
            ).cur_ip() + 1] as int) < old(self).stack@.len() && old(self).stack@.len() < STACK_MAX
                ==> r == Result::<Flow, RuntimeError>::Ok(Flow::Next) && final(self).stack@ == old(
                self,
            ).stack@.push(
                old(self).stack@[old(self).top_frame().slots + (old(self).cur_code()[old(
                    self,
                ).cur_ip() + 1] as int)],
            ) && final(self).output == old(self).output && final(self).cur_ip() == old(
                self,
            ).cur_ip() + 2,
            old(self).cur_op() == Some(OpCode::SetLocal) && old(self).cur_ip() + 2 <= old(
                self,
            ).cur_code().len() && old(self).top_frame().slots + (old(self).cur_code()[old(
                self,
            ).cur_ip() + 1] as int) < old(self).stack@.len() ==> r == Result::<
                Flow,
                RuntimeError,
            >::Ok(Flow::Next) && final(self).stack@ == old(self).stack@.update(
                old(self).top_frame().slots + (old(self).cur_code()[old(self).cur_ip() + 1] as int),
                old(self).stack@.last(),
            ) && final(self).output == old(self).output && final(self).cur_ip() == old(
                self,
            ).cur_ip() + 2,
            // `Pop` drops the top of the stack.
            old(self).cur_op() == Some(OpCode::Pop) && old(self).stack@.len() > 0 ==> r
                == Result::<Flow, RuntimeError>::Ok(Flow::Next) && final(self).stack@ == old(
                self,
            ).stack@.drop_last() && final(self).output == old(self).output && final(self).cur_ip()
                == old(self).cur_ip() + 1,
            // `Print` pops the top of the stack and appends its rendering to
            // the output.
            old(self).cur_op() == Some(OpCode::Print) && old(self).stack@.len() > 0 ==> r
                == Result::<Flow, RuntimeError>::Ok(Flow::Next) && final(self).stack@ == old(
                self,
            ).stack@.drop_last() && final(self).output@.len() == old(self).output@.len() + 1
                && final(self).output@.drop_last() == old(self).output@
                && final(self).output@.last()@ == spec_render(
                final(self).heap,
                old(self).stack@.last(),
            ) && final(self).cur_ip() == old(self).cur_ip() + 1,
            // `Jump` adds its big-endian operand to the cursor after the
            // operand bytes; `Loop` subtracts it.
            old(self).cur_op() == Some(OpCode::Jump) && old(self).cur_ip() + 3 <= old(
                self,
            ).cur_code().len() && old(self).cur_ip() + 3 + 65535 <= usize::MAX ==> r == Result::<
                Flow,
                RuntimeError,
            >::Ok(Flow::Next) && final(self).stack == old(self).stack && final(self).output == old(
                self,
            ).output && final(self).cur_ip() == old(self).cur_ip() + 3 + spec_u16_of(
                old(self).cur_code()[old(self).cur_ip() + 1],
                old(self).cur_code()[old(self).cur_ip() + 2],
            ),
            old(self).cur_op() == Some(OpCode::JumpIfFalse) && old(self).cur_ip() + 3 <= old(
                self,
            ).cur_code().len() && old(self).cur_ip() + 3 + 65535 <= usize::MAX && old(
                self,
            ).stack@.len() > 0 ==> r == Result::<Flow, RuntimeError>::Ok(Flow::Next) && final(self).stack == old(self).stack && final(self).output == old(self).output && final(self).cur_ip() == if spec_truthy(old(self).stack@.last()) {
                old(self).cur_ip() + 3
            } else {
                old(self).cur_ip() + 3 + spec_u16_of(
                    old(self).cur_code()[old(self).cur_ip() + 1],
                    old(self).cur_code()[old(self).cur_ip() + 2],
                )
            },
            old(self).cur_op() == Some(OpCode::Loop) && old(self).cur_ip() + 3 <= old(
                self,
            ).cur_code().len() && spec_u16_of(
                old(self).cur_code()[old(self).cur_ip() + 1],
                old(self).cur_code()[old(self).cur_ip() + 2],
            ) <= old(self).cur_ip() + 3 ==> r == Result::<Flow, RuntimeError>::Ok(Flow::Next)
                && final(self).stack == old(self).stack && final(self).output == old(self).output
                && final(self).cur_ip() == old(self).cur_ip() + 3 - spec_u16_of(
                old(self).cur_code()[old(self).cur_ip() + 1],
                old(self).cur_code()[old(self).cur_ip() + 2],
            ),
            // `GetGlobal` pushes the binding, or raises the undefined-variable
            // error carrying the name.
            old(self).cur_op() == Some(OpCode::GetGlobal) && old(self).cur_ip() + 2 <= old(
                self,
            ).cur_code().len() && (old(self).cur_code()[old(self).cur_ip() + 1] as int) < old(
                self,
            ).cur_consts().len() ==> match old(self).cur_consts()[old(self).cur_code()[old(
                self,
            ).cur_ip() + 1] as int] {
                Value::Object(n) => old(self).heap.is_str(n as int) ==> match old(
                    self,
                ).heap.spec_global(n) {
                    Some(v) => old(self).stack@.len() < STACK_MAX ==> r == Result::<
                        Flow,
                        RuntimeError,
                    >::Ok(Flow::Next) && final(self).stack@ == old(self).stack@.push(v) && final(self).output == old(self).output && final(self).cur_ip() == old(self).cur_ip() + 2,
                    None => r matches Err(e) && (match e.kind {
                        RuntimeErrorKind::UndefinedVariable(nm) => nm@ == old(self).heap.str_chars(
                            n as int,
                        ),
                        _ => false,
                    }) && final(self).stack == old(self).stack,
                },
                _ => true,
            },
            // `DefineGlobal` binds the name to the popped value.
            old(self).cur_op() == Some(OpCode::DefineGlobal) && old(self).cur_ip() + 2 <= old(
                self,
            ).cur_code().len() && (old(self).cur_code()[old(self).cur_ip() + 1] as int) < old(
                self,
            ).cur_consts().len() && old(self).stack@.len() > 0 ==> match old(self).cur_consts()[old(
                self,
            ).cur_code()[old(self).cur_ip() + 1] as int] {
                Value::Object(n) => old(self).heap.is_str(n as int) ==> r == Result::<
                    Flow,
                    RuntimeError,
                >::Ok(Flow::Next) && final(self).heap.spec_global(n) == Some(
                    old(self).stack@.last(),
                ) && (forall|m: usize|
                    m != n ==> #[trigger] final(self).heap.spec_global(m) == old(
                        self,
                    ).heap.spec_global(m)) && final(self).stack@ == old(self).stack@.drop_last()
                    && final(self).output == old(self).output && final(self).cur_ip() == old(
                    self,
                ).cur_ip() + 2,
                _ => true,
            },
            // `SetGlobal` overwrites an existing binding and keeps the value
            // on the stack; an unbound name is the undefined-variable error.
            old(self).cur_op() == Some(OpCode::SetGlobal) && old(self).cur_ip() + 2 <= old(
                self,
            ).cur_code().len() && (old(self).cur_code()[old(self).cur_ip() + 1] as int) < old(
                self,
            ).cur_consts().len() ==> match old(self).cur_consts()[old(self).cur_code()[old(
                self,
            ).cur_ip() + 1] as int] {
                Value::Object(n) => old(self).heap.is_str(n as int) ==> match old(
                    self,
                ).heap.spec_global(n) {
                    Some(_) => old(self).stack@.len() > 0 ==> r == Result::<
                        Flow,
                        RuntimeError,
                    >::Ok(Flow::Next) && final(self).heap.spec_global(n) == Some(
                        old(self).stack@.last(),
                    ) && final(self).stack == old(self).stack && final(self).output == old(
                        self,
                    ).output && final(self).cur_ip() == old(self).cur_ip() + 2,
                    None => r matches Err(e) && (match e.kind {
                        RuntimeErrorKind::UndefinedVariable(nm) => nm@ == old(self).heap.str_chars(
                            n as int,
                        ),
                        _ => false,
                    }) && final(self).stack == old(self).stack,
                },
                _ => true,
            },
            // The arithmetic and comparison instructions pop two numbers and
            // push the operation's value, with wrapping arithmetic.
            old(self).stack@.len() >= 2 ==> match (
                old(self).cur_op(),
                old(self).stack@[old(self).stack@.len() - 2],
                old(self).stack@[old(self).stack@.len() - 1],
            ) {
                (Some(o), Value::Number(x), Value::Number(y)) => (o == OpCode::Add || o
                    == OpCode::Subtract || o == OpCode::Multiply || o == OpCode::Greater || o
                    == OpCode::Less || (o == OpCode::Divide && y != 0)) ==> (r == Result::<
                    Flow,
                    RuntimeError,
                >::Ok(Flow::Next) && final(self).stack@ == old(
                    self,
                ).stack@.drop_last().drop_last().push(spec_binary_result(o, x, y)) && final(self).output == old(self).output && final(self).cur_ip() == old(self).cur_ip() + 1),
                _ => true,
            },
            // `Equal` compares any two values, objects by identity.
            old(self).cur_op() == Some(OpCode::Equal) && old(self).stack@.len() >= 2 ==> r
                == Result::<Flow, RuntimeError>::Ok(Flow::Next) && final(self).stack@ == old(
                self,
            ).stack@.drop_last().drop_last().push(
                Value::Bool(
                    old(self).stack@[old(self).stack@.len() - 2] == old(self).stack@[old(
                        self,
                    ).stack@.len() - 1],
                ),
            ) && final(self).output == old(self).output && final(self).cur_ip() == old(
                self,
            ).cur_ip() + 1,
            // `Not` replaces the top by its negated truthiness; `Negate`
            // negates a number.
            old(self).cur_op() == Some(OpCode::Not) && old(self).stack@.len() >= 1 ==> r
                == Result::<Flow, RuntimeError>::Ok(Flow::Next) && final(self).stack@ == old(
                self,
            ).stack@.drop_last().push(Value::Bool(!spec_truthy(old(self).stack@.last()))) && final(self).output == old(self).output && final(self).cur_ip() == old(self).cur_ip() + 1,
            old(self).cur_op() == Some(OpCode::Negate) && old(self).stack@.len() >= 1 ==> match old(
                self,
            ).stack@.last() {
                Value::Number(x) => r == Result::<Flow, RuntimeError>::Ok(Flow::Next) && final(self).stack@ == old(self).stack@.drop_last().push(Value::Number(0i64.wrapping_sub(x)))
                    && final(self).output == old(self).output && final(self).cur_ip() == old(
                    self,
                ).cur_ip() + 1,
                _ => r matches Err(e) && e.kind == RuntimeErrorKind::OperandMustBeNumber,
            },
            // `Call` dispatches on the callee under the arguments: a closure
            // of matching arity gains a frame, a wrong count is exactly the
            // arity error, anything not callable the not-callable error.
            old(self).cur_op() == Some(OpCode::Call) && old(self).cur_ip() + 2 <= old(
                self,
            ).cur_code().len() && old(self).stack@.len() > (old(self).cur_code()[old(self).cur_ip()
                + 1] as int) ==> (match old(self).stack@[old(self).stack@.len() - 1 - (old(
                self,
            ).cur_code()[old(self).cur_ip() + 1] as int)] {
                Value::Object(i) => {
                    &&& (old(self).heap.is_closure(i as int) && old(self).cur_code()[old(
                        self,
                    ).cur_ip() + 1] != old(self).heap.function_of(
                        old(self).heap.closure_function(i as int) as int,
                    ).arity ==> (r matches Err(e) && e.kind == (RuntimeErrorKind::WrongArity {
                        expected: old(self).heap.function_of(
                            old(self).heap.closure_function(i as int) as int,
                        ).arity,
                        got: old(self).cur_code()[old(self).cur_ip() + 1],
                    })))
                    &&& (old(self).heap.is_closure(i as int) && old(self).cur_code()[old(
                        self,
                    ).cur_ip() + 1] == old(self).heap.function_of(
                        old(self).heap.closure_function(i as int) as int,
                    ).arity && old(self).frames@.len() < FRAMES_MAX ==> r == Result::<
                        Flow,
                        RuntimeError,
                    >::Ok(Flow::Next) && final(self).frames@.len() == old(self).frames@.len() + 1
                        && final(self).top_frame().closure == i && final(self).top_frame().slots
                        == old(self).stack@.len() - 1 - (old(self).cur_code()[old(self).cur_ip()
                        + 1] as int) && final(self).stack == old(self).stack && final(self).output
                        == old(self).output)
                    &&& (old(self).heap.live(i as int) && !(old(self).heap.obj_at(i as int)
                        is Closure) && !(old(self).heap.obj_at(i as int) is Class) && !(old(
                        self,
                    ).heap.obj_at(i as int) is BoundMethod) ==> (r matches Err(e) && e.kind
                        == RuntimeErrorKind::NotCallable))
                },
                _ => r matches Err(e) && e.kind == RuntimeErrorKind::NotCallable,
            }),
            // `Return` closes the frame: the script frame halts the machine,
            // an inner frame leaves its result where the callee stood.
            old(self).cur_op() == Some(OpCode::Return) && old(self).stack@.len() > 0 && old(
                self,
            ).top_frame().slots < old(self).stack@.len() ==> (old(self).frames@.len() == 1 ==> r
                == Result::<Flow, RuntimeError>::Ok(Flow::Halt)) && (old(self).frames@.len() > 1
                ==> r == Result::<Flow, RuntimeError>::Ok(Flow::Next) && final(self).frames@ == old(
                self,
            ).frames@.drop_last() && final(self).stack@ == old(self).stack@.take(
                old(self).top_frame().slots as int,
            ).push(old(self).stack@.last()) && final(self).output == old(self).output),
            // `Class` pushes a fresh class of the named constant, with no
            // methods yet.
            old(self).cur_op() == Some(OpCode::Class) && old(self).cur_ip() + 2 <= old(
                self,
            ).cur_code().len() && (old(self).cur_code()[old(self).cur_ip() + 1] as int) < old(
                self,
            ).cur_consts().len() && old(self).stack@.len() < STACK_MAX ==> (match old(
                self,
            ).cur_consts()[old(self).cur_code()[old(self).cur_ip() + 1] as int] {
                Value::Object(n) => old(self).heap.is_str(n as int) ==> r == Result::<
                    Flow,
                    RuntimeError,
                >::Ok(Flow::Next) && final(self).stack@.len() == old(self).stack@.len() + 1
                    && final(self).stack@.drop_last() == old(self).stack@ && (match final(self).stack@.last() {
                    Value::Object(cl) => final(self).heap.is_class(cl as int) && final(self).heap.class_name(cl as int) == n && final(self).heap.class_methods(cl as int)
                        == Seq::<(usize, usize)>::empty(),
                    _ => false,
                }) && final(self).output == old(self).output && final(self).cur_ip() == old(
                    self,
                ).cur_ip() + 2,
                _ => true,
            }),
            // A property read needs an instance; a present field replaces the
            // receiver by its value.
            old(self).cur_op() == Some(OpCode::GetProperty) && old(self).cur_ip() + 2 <= old(
                self,
            ).cur_code().len() && (old(self).cur_code()[old(self).cur_ip() + 1] as int) < old(
                self,
            ).cur_consts().len() && old(self).stack@.len() >= 1 ==> (match old(
                self,
            ).cur_consts()[old(self).cur_code()[old(self).cur_ip() + 1] as int] {
                Value::Object(n) => old(self).heap.is_str(n as int) ==> (match old(
                    self,
                ).stack@.last() {
                    Value::Object(inst) => old(self).heap.is_instance(inst as int) ==> (match
                    assoc_value(old(self).heap.instance_fields(inst as int), n) {
                        Some(v) => r == Result::<Flow, RuntimeError>::Ok(Flow::Next) && final(self).stack@ == old(self).stack@.drop_last().push(v) && final(self).output
                            == old(self).output && final(self).cur_ip() == old(self).cur_ip() + 2,
                        None => true,
                    }),
                    _ => r matches Err(e) && e.kind
                        == RuntimeErrorKind::OnlyInstancesHaveProperties,
                }),
                _ => true,
            }),
            // A property invocation needs an instance as the receiver.
            old(self).cur_op() == Some(OpCode::Invoke) && old(self).cur_ip() + 3 <= old(
                self,
            ).cur_code().len() && (old(self).cur_code()[old(self).cur_ip() + 1] as int) < old(
                self,
            ).cur_consts().len() && old(self).stack@.len() > (old(self).cur_code()[old(self).cur_ip()
                + 2] as int) ==> (match old(self).cur_consts()[old(self).cur_code()[old(
                self,
            ).cur_ip() + 1] as int] {
                Value::Object(n) => old(self).heap.is_str(n as int) ==> (match old(self).stack@[old(
                    self,
                ).stack@.len() - 1 - (old(self).cur_code()[old(self).cur_ip() + 2] as int)] {
                    Value::Object(i) => old(self).heap.is_instance(i as int) || (r matches Err(e)
                        && e.kind == RuntimeErrorKind::OnlyInstancesHaveProperties),
                    _ => r matches Err(e) && e.kind
                        == RuntimeErrorKind::OnlyInstancesHaveProperties,
                }),
                _ => true,
            }),
            // A field write needs an instance; it binds the field and leaves
            // the written value on the stack.
            old(self).cur_op() == Some(OpCode::SetProperty) && old(self).cur_ip() + 2 <= old(
                self,
            ).cur_code().len() && (old(self).cur_code()[old(self).cur_ip() + 1] as int) < old(
                self,
            ).cur_consts().len() && old(self).stack@.len() >= 2 ==> (match old(
                self,
            ).cur_consts()[old(self).cur_code()[old(self).cur_ip() + 1] as int] {
                Value::Object(n) => old(self).heap.is_str(n as int) ==> (match old(self).stack@[old(
                    self,
                ).stack@.len() - 2] {
                    Value::Object(inst) => old(self).heap.is_instance(inst as int) ==> r
                        == Result::<Flow, RuntimeError>::Ok(Flow::Next) && final(self).stack@ == old(self).stack@.drop_last().drop_last().push(old(self).stack@.last())
                        && assoc_value(final(self).heap.instance_fields(inst as int), n) == Some(
                        old(self).stack@.last(),
                    ) && final(self).output == old(self).output && final(self).cur_ip() == old(
                        self,
                    ).cur_ip() + 2,
                    _ => r matches Err(e) && e.kind == RuntimeErrorKind::OnlyInstancesHaveFields,
                }),
                _ => true,
            }),
    {
        let op_byte = match self.read_byte_operand() {
            Ok(b) => b,
            Err(e) => {
                return Err(e);
            },
        };
        let op = match OpCode::from_byte(op_byte) {
            Some(op) => op,
            None => {
                let e = self.error(RuntimeErrorKind::InvalidBytecode);
                return Err(e);
            },
        };
        match op {
            OpCode::Constant => {
                let v = match self.read_constant() {
                    Ok(v) => v,
                    Err(e) => {
                        return Err(e);
                    },
                };
                match self.push(v) {
                    Ok(()) => Ok(Flow::Next),
                    Err(e) => Err(e),
                }
            },
            OpCode::Nil => {
                match self.push(Value::Nil) {
                    Ok(()) => Ok(Flow::Next),
                    Err(e) => Err(e),
                }
            },
            OpCode::True => {
                match self.push(Value::Bool(true)) {
                    Ok(()) => Ok(Flow::Next),
                    Err(e) => Err(e),
                }
            },
            OpCode::False => {
                match self.push(Value::Bool(false)) {
                    Ok(()) => Ok(Flow::Next),
                    Err(e) => Err(e),
                }
            },
            OpCode::Pop => {
                match self.pop() {
                    Ok(_) => Ok(Flow::Next),
                    Err(e) => Err(e),
                }
            },
            OpCode::GetLocal => {
                let slot = match self.read_byte_operand() {
                    Ok(b) => b,
                    Err(e) => {
                        return Err(e);
                    },
                };
                let fi = self.frames.len() - 1;
                let base = self.frames[fi].slots;
                if slot as usize > usize::MAX - base {
                    let e = self.error(RuntimeErrorKind::InvalidBytecode);
                    return Err(e);
                }
                let at = base + slot as usize;
                if at >= self.stack.len() {
                    let e = self.error(RuntimeErrorKind::InvalidBytecode);
                    return Err(e);
                }
                let v = self.stack[at];
                match self.push(v) {
                    Ok(()) => Ok(Flow::Next),
                    Err(e) => Err(e),
                }
            },
            OpCode::SetLocal => {
                let slot = match self.read_byte_operand() {
                    Ok(b) => b,
                    Err(e) => {
                        return Err(e);
                    },
                };
                let fi = self.frames.len() - 1;
                let base = self.frames[fi].slots;
                if slot as usize > usize::MAX - base {
                    let e = self.error(RuntimeErrorKind::InvalidBytecode);
                    return Err(e);
                }
                let at = base + slot as usize;
                if at >= self.stack.len() {
                    let e = self.error(RuntimeErrorKind::InvalidBytecode);
                    return Err(e);
                }
                let v = match self.peek_at(0) {
                    Ok(v) => v,
                    Err(e) => {
                        return Err(e);
                    },
                };
                self.set_slot(at, v);
                Ok(Flow::Next)
            },
            OpCode::GetGlobal => {
                let name = match self.read_name_constant() {
                    Ok(n) => n,
                    Err(e) => {
                        return Err(e);
                    },
                };
                match self.heap.get_global(name) {
                    Some(v) => {
                        match self.push(v) {
                            Ok(()) => Ok(Flow::Next),
                            Err(e) => Err(e),
                        }
                    },
                    None => {
                        let chars = self.str_copy(name);
                        let e = self.error(RuntimeErrorKind::UndefinedVariable(chars));
                        Err(e)
                    },
                }
            },
            OpCode::DefineGlobal => {
                let name = match self.read_name_constant() {
                    Ok(n) => n,
                    Err(e) => {
                        return Err(e);
                    },
                };
                let v = match self.peek_at(0) {
                    Ok(v) => v,
                    Err(e) => {
                        return Err(e);
                    },
                };
                let ghost pre = *self;
                self.heap.set_global(name, v);
                proof {
                    lemma_vm_globals(pre, *self);
                }
                let ghost post_set = *self;
                let res: Result<Flow, RuntimeError> = match self.pop() {
                    Ok(_) => Ok(Flow::Next),
                    Err(e) => Err(e),
                };
                proof {
                    assert(self.heap.globals@ == post_set.heap.globals@);
                    assert forall|m: usize| m != name implies #[trigger] self.heap.spec_global(m)
                        == pre.heap.spec_global(m) by {
                        assert(self.heap.spec_global(m) == post_set.heap.spec_global(m));
                    }
                    assert(self.heap.spec_global(name) == post_set.heap.spec_global(name));
                }
                res
            },
            OpCode::SetGlobal => {
                let name = match self.read_name_constant() {
                    Ok(n) => n,
                    Err(e) => {
                        return Err(e);
                    },
                };
                let defined = match self.heap.get_global(name) {
                    Some(_) => true,
                    None => false,
                };
                if !defined {
                    let chars = self.str_copy(name);
                    let e = self.error(RuntimeErrorKind::UndefinedVariable(chars));
                    return Err(e);
                }
                let v = match self.peek_at(0) {
                    Ok(v) => v,
                    Err(e) => {
                        return Err(e);
                    },
                };
                let ghost pre = *self;
                self.heap.set_global(name, v);
                proof {
                    lemma_vm_globals(pre, *self);
                }
                Ok(Flow::Next)
            },
            OpCode::GetUpvalue => {
                let slot = match self.read_byte_operand() {
                    Ok(b) => b,
                    Err(e) => {
                        return Err(e);
                    },
                };
                let fi = self.frames.len() - 1;
                let closure = self.frames[fi].closure;
                proof {
                    assert(self.heap.obj_wf(self.heap.obj_at(closure as int)));
                }
                let uv_opt: Option<usize> = match &self.heap.objects[closure] {
                    Some(Obj::Closure { upvalues, .. }) => {
                        if (slot as usize) < upvalues.len() {
                            Some(upvalues[slot as usize])
                        } else {
                            None
                        }
                    },
                    _ => {
                        proof {
                            assert(false);
                        }
                        None
                    },
                };
                let uv = match uv_opt {
                    Some(uv) => uv,
                    None => {
                        let e = self.error(RuntimeErrorKind::InvalidBytecode);
                        return Err(e);
                    },
                };
                proof {
                    assert(self.heap.obj_wf(self.heap.obj_at(uv as int)));
                }
                let v_opt: Option<Value> = match &self.heap.objects[uv] {
                    Some(Obj::Upvalue(UpvalueState::Closed(v))) => Some(*v),
                    Some(Obj::Upvalue(UpvalueState::Open(s))) => {
                        if *s < self.stack.len() {
                            Some(self.stack[*s])
                        } else {
                            None
                        }
                    },
                    _ => {
                        proof {
                            assert(false);
                        }
                        None
                    },
                };
                match v_opt {
                    Some(v) => {
                        match self.push(v) {
                            Ok(()) => Ok(Flow::Next),
                            Err(e) => Err(e),
                        }
                    },
                    None => {
                        let e = self.error(RuntimeErrorKind::InvalidBytecode);
                        Err(e)
                    },
                }
            },
            OpCode::SetUpvalue => {
                let slot = match self.read_byte_operand() {
                    Ok(b) => b,
                    Err(e) => {
                        return Err(e);
                    },
                };
                let v = match self.peek_at(0) {
                    Ok(v) => v,
                    Err(e) => {
                        return Err(e);
                    },
                };
                let fi = self.frames.len() - 1;
                let closure = self.frames[fi].closure;
                proof {
                    assert(self.heap.obj_wf(self.heap.obj_at(closure as int)));
                }
                let uv_opt: Option<usize> = match &self.heap.objects[closure] {
                    Some(Obj::Closure { upvalues, .. }) => {
                        if (slot as usize) < upvalues.len() {
                            Some(upvalues[slot as usize])
                        } else {
                            None
                        }
                    },
                    _ => {
                        proof {
                            assert(false);
                        }
                        None
                    },
                };
                let uv = match uv_opt {
                    Some(uv) => uv,
                    None => {
                        let e = self.error(RuntimeErrorKind::InvalidBytecode);
                        return Err(e);
                    },
                };
                let open_slot_opt: Option<usize> = match &self.heap.objects[uv] {
                    Some(Obj::Upvalue(UpvalueState::Open(s))) => Some(*s),
                    Some(Obj::Upvalue(UpvalueState::Closed(_))) => None,
                    _ => {
                        proof {
                            assert(self.heap.obj_wf(self.heap.obj_at(closure as int)));
                            assert(false);
                        }
                        None
                    },
                };
                match open_slot_opt {
                    Some(s) => {
                        if s < self.stack.len() {
                            self.set_slot(s, v);
                            Ok(Flow::Next)
                        } else {
                            let e = self.error(RuntimeErrorKind::InvalidBytecode);
                            Err(e)
                        }
                    },
                    None => {
                        // The upvalue is closed: the value lives in it. A
                        // closed upvalue is never on the open list, so the
                        // list's slots are untouched.
                        let ghost pre = *self;
                        proof {
                            assert forall|k: int|
                                0 <= k < pre.open_upvalues@.len() implies pre.open_upvalues@[k]
                                != uv by {
                                assert(pre.heap.upvalue_state(pre.open_upvalues@[k] as int)
                                    is Open);
                            }
                        }
                        self.heap.set_upvalue(uv, UpvalueState::Closed(v));
                        proof {
                            lemma_vm_update_upvalue(pre, *self, uv as int);
                        }
                        Ok(Flow::Next)
                    },
                }
            },
            OpCode::Equal | OpCode::Greater | OpCode::Less | OpCode::Add | OpCode::Subtract
                | OpCode::Multiply | OpCode::Divide => {
                match self.binary_instruction(op) {
                    Ok(()) => Ok(Flow::Next),
                    Err(e) => Err(e),
                }
            },
            OpCode::Not | OpCode::Negate => {
                match self.unary_instruction(op) {
                    Ok(()) => Ok(Flow::Next),
                    Err(e) => Err(e),
                }
            },
            OpCode::Print => {
                let v = match self.pop() {
                    Ok(v) => v,
                    Err(e) => {
                        return Err(e);
                    },
                };
                let line = self.render_value(v);
                self.write_output(line);
                proof {
                    assert(self.output@.drop_last() =~= old(self).output@);
                    assert(old(self).output@.is_prefix_of(self.output@));
                }
                Ok(Flow::Next)
            },
            OpCode::Jump => {
                let off = match self.read_short_operand() {
                    Ok(o) => o,
                    Err(e) => {
                        return Err(e);
                    },
                };
                self.jump_forward(off as usize)
            },
            OpCode::JumpIfFalse => {
                let off = match self.read_short_operand() {
                    Ok(o) => o,
                    Err(e) => {
                        return Err(e);
                    },
                };
                let v = match self.peek_at(0) {
                    Ok(v) => v,
                    Err(e) => {
                        return Err(e);
                    },
                };
                if !v.truthy() {
                    self.jump_forward(off as usize)
                } else {
                    Ok(Flow::Next)
                }
            },
            OpCode::Loop => {
                let off = match self.read_short_operand() {
                    Ok(o) => o,
                    Err(e) => {
                        return Err(e);
                    },
                };
                let fi = self.frames.len() - 1;
                let ip = self.frames[fi].ip.pos;
                if (off as usize) > ip {
                    let e = self.error(RuntimeErrorKind::InvalidBytecode);
                    return Err(e);
                }
                let ghost pre_jump = *self;
                self.frames[fi].ip.pos = ip - off as usize;
                proof {
                    lemma_vm_frames(pre_jump, *self);
                }
                Ok(Flow::Next)
            },
            OpCode::Call => {
                let arg_count = match self.read_byte_operand() {
                    Ok(b) => b,
                    Err(e) => {
                        return Err(e);
                    },
                };
                let callee = match self.peek_at(arg_count as usize) {
                    Ok(v) => v,
                    Err(e) => {
                        return Err(e);
                    },
                };
                match self.call_value(callee, arg_count) {
                    Ok(()) => Ok(Flow::Next),
                    Err(e) => Err(e),
                }
            },
            OpCode::Invoke => {
                let name = match self.read_name_constant() {
                    Ok(n) => n,
                    Err(e) => {
                        return Err(e);
                    },
                };
                let arg_count = match self.read_byte_operand() {
                    Ok(b) => b,
                    Err(e) => {
                        return Err(e);
                    },
                };
                if (arg_count as usize) >= self.stack.len() {
                    let e = self.error(RuntimeErrorKind::InvalidBytecode);
                    return Err(e);
                }
                match self.invoke(name, arg_count) {
                    Ok(()) => Ok(Flow::Next),
                    Err(e) => Err(e),
                }
            },
            OpCode::SuperInvoke => {
                let name = match self.read_name_constant() {
                    Ok(n) => n,
                    Err(e) => {
                        return Err(e);
                    },
                };
                let arg_count = match self.read_byte_operand() {
                    Ok(b) => b,
                    Err(e) => {
                        return Err(e);
                    },
                };
                let sup = match self.pop() {
                    Ok(v) => v,
                    Err(e) => {
                        return Err(e);
                    },
                };
                let class = match sup {
                    Value::Object(i) => i,
                    _ => {
                        let e = self.error(RuntimeErrorKind::InvalidBytecode);
                        return Err(e);
                    },
                };
                let is_class = matches!(&self.heap.objects[class], Some(Obj::Class { .. }));
                if !is_class {
                    let e = self.error(RuntimeErrorKind::InvalidBytecode);
                    return Err(e);
                }
                match self.heap.get_method(class, name) {
                    Some(m) => {
                        if (arg_count as usize) >= self.stack.len() {
                            let e = self.error(RuntimeErrorKind::InvalidBytecode);
                            return Err(e);
                        }
                        match self.call_closure(m, arg_count) {
                            Ok(()) => Ok(Flow::Next),
                            Err(e) => Err(e),
                        }
                    },
                    None => {
                        let chars = self.str_copy(name);
                        let e = self.error(RuntimeErrorKind::UndefinedProperty(chars));
                        Err(e)
                    },
                }
            },
            OpCode::Closure => {
                self.op_closure()
            },
            OpCode::CloseUpvalue => {
                let n = self.stack.len();
                if n == 0 {
                    let e = self.error(RuntimeErrorKind::InvalidBytecode);
                    return Err(e);
                }
                self.close_upvalues(n - 1);
                match self.pop() {
                    Ok(_) => Ok(Flow::Next),
                    Err(e) => Err(e),
                }
            },
            OpCode::Return => {
                let result = match self.pop() {
                    Ok(v) => v,
                    Err(e) => {
                        return Err(e);
                    },
                };
                let fi = self.frames.len() - 1;
                let slots = self.frames[fi].slots;
                self.close_upvalues(slots);
                let ghost post_close = *self;
                let ghost pre_pop = *self;
                let _ = self.frames.pop();
                proof {
                    lemma_vm_frames(pre_pop, *self);
                }
                let ghost pre_trunc = *self;
                self.stack.truncate(slots);
                proof {
                    assert forall|i: int|
                        0 <= i < self.stack@.len() implies self.heap.valid_value(
                        #[trigger] self.stack@[i],
                    ) by {
                        assert(pre_trunc.heap.valid_value(pre_trunc.stack@[i]));
                    }
                    assert forall|k: int|
                        0 <= k < self.open_upvalues@.len() implies #[trigger] self.open_slot(k)
                        < self.stack@.len() by {
                        assert(self.open_slot(k) == post_close.open_slot(k));
                        assert(post_close.open_slot(k) < slots);
                    }
                    assert forall|k1: int, k2: int|
                        0 <= k1 < k2 < self.open_upvalues@.len() implies #[trigger] self.open_slot(
                        k1,
                    ) > #[trigger] self.open_slot(k2) by {
                        assert(self.open_slot(k1) == pre_trunc.open_slot(k1));
                        assert(self.open_slot(k2) == pre_trunc.open_slot(k2));
                        assert(pre_trunc.open_slot(k1) > pre_trunc.open_slot(k2));
                    }
                }
                if self.frames.len() == 0 {
                    proof {
                        assert(slots == 0);
                        assert(self.stack@.len() == 0);
                    }
                    return Ok(Flow::Halt);
                }
                let res: Result<Flow, RuntimeError> = match self.push(result) {
                    Ok(()) => Ok(Flow::Next),
                    Err(e) => Err(e),
                };
                proof {
                    assert(self.frames@ =~= old(self).frames@.drop_last());
                    if old(self).top_frame().slots < old(self).stack@.len() && res is Ok {
                        assert(self.stack@ =~= old(self).stack@.take(
                            old(self).top_frame().slots as int,
                        ).push(old(self).stack@.last()));
                    }
                }
                res
            },
            OpCode::Class => {
                let name = match self.read_name_constant() {
                    Ok(n) => n,
                    Err(e) => {
                        return Err(e);
                    },
                };
                let ghost pre = *self;
                let class = self.heap.allocate_obj(
                    Obj::Class { name, methods: Vec::new() },
                    48,
                );
                proof {
                    let mid = Vm { heap: self.heap, ..pre };
                    assert(mid == *self);
                    lemma_vm_extend(pre, *self);
                }
                let res: Result<Flow, RuntimeError> = match self.push(Value::Object(class)) {
                    Ok(()) => Ok(Flow::Next),
                    Err(e) => Err(e),
                };
                proof {
                    if res is Ok {
                        assert(self.stack@.drop_last() =~= old(self).stack@);
                        assert(self.heap.class_methods(class as int)
                            =~= Seq::<(usize, usize)>::empty());
                    }
                }
                res
            },
            OpCode::Inherit => {
                self.op_inherit()
            },
            OpCode::Method => {
                let name = match self.read_name_constant() {
                    Ok(n) => n,
                    Err(e) => {
                        return Err(e);
                    },
                };
                let method_v = match self.peek_at(0) {
                    Ok(v) => v,
                    Err(e) => {
                        return Err(e);
                    },
                };
                let class_v = match self.peek_at(1) {
                    Ok(v) => v,
                    Err(e) => {
                        return Err(e);
                    },
                };
                let method = match method_v {
                    Value::Object(m) => m,
                    _ => {
                        let e = self.error(RuntimeErrorKind::InvalidBytecode);
                        return Err(e);
                    },
                };
                let class = match class_v {
                    Value::Object(c) => c,
                    _ => {
                        let e = self.error(RuntimeErrorKind::InvalidBytecode);
                        return Err(e);
                    },
                };
                let method_ok = matches!(&self.heap.objects[method], Some(Obj::Closure { .. }));
                let class_ok = matches!(&self.heap.objects[class], Some(Obj::Class { .. }));
                if !method_ok || !class_ok {
                    let e = self.error(RuntimeErrorKind::InvalidBytecode);
                    return Err(e);
                }
                let ghost pre = *self;
                self.heap.add_method(class, name, method);
                proof {
                    assert(same_kind(self.heap.obj_at(class as int), pre.heap.obj_at(class as int)));
                    lemma_vm_update(pre, *self, class as int);
                }
                match self.pop() {
                    Ok(_) => Ok(Flow::Next),
                    Err(e) => Err(e),
                }
            },
            OpCode::GetProperty => {
                let name = match self.read_name_constant() {
                    Ok(n) => n,
                    Err(e) => {
                        return Err(e);
                    },
                };
                let top = match self.peek_at(0) {
                    Ok(v) => v,
                    Err(e) => {
                        return Err(e);
                    },
                };
                let inst = match top {
                    Value::Object(i) => i,
                    _ => {
                        let e = self.error(RuntimeErrorKind::OnlyInstancesHaveProperties);
                        return Err(e);
                    },
                };
                let is_inst = matches!(&self.heap.objects[inst], Some(Obj::Instance { .. }));
                if !is_inst {
                    let e = self.error(RuntimeErrorKind::OnlyInstancesHaveProperties);
                    return Err(e);
                }
                match self.heap.get_field(inst, name) {
                    Some(v) => {
                        let _ = match self.pop() {
                            Ok(v2) => v2,
                            Err(e) => {
                                return Err(e);
                            },
                        };
                        match self.push(v) {
                            Ok(()) => Ok(Flow::Next),
                            Err(e) => Err(e),
                        }
                    },
                    None => {
                        proof {
                            assert(self.heap.obj_wf(self.heap.obj_at(inst as int)));
                        }
                        let class = match &self.heap.objects[inst] {
                            Some(Obj::Instance { class, .. }) => *class,
                            _ => {
                                proof {
                                    assert(false);
                                }
                                0
                            },
                        };
                        match self.bind_method(class, name) {
                            Ok(()) => Ok(Flow::Next),
                            Err(e) => Err(e),
                        }
                    },
                }
            },
            OpCode::SetProperty => {
                let name = match self.read_name_constant() {
                    Ok(n) => n,
                    Err(e) => {
                        return Err(e);
                    },
                };
                let target = match self.peek_at(1) {
                    Ok(v) => v,
                    Err(e) => {
                        return Err(e);
                    },
                };
                let inst = match target {
                    Value::Object(i) => i,
                    _ => {
                        let e = self.error(RuntimeErrorKind::OnlyInstancesHaveFields);
                        return Err(e);
                    },
                };
                let is_inst = matches!(&self.heap.objects[inst], Some(Obj::Instance { .. }));
                if !is_inst {
                    let e = self.error(RuntimeErrorKind::OnlyInstancesHaveFields);
                    return Err(e);
                }
                let v = match self.peek_at(0) {
                    Ok(v) => v,
                    Err(e) => {
                        return Err(e);
                    },
                };
                let ghost pre = *self;
                self.heap.set_field(inst, name, v);
                proof {
                    assert(same_kind(self.heap.obj_at(inst as int), pre.heap.obj_at(inst as int)));
                    lemma_vm_update(pre, *self, inst as int);
                }
                let value = match self.pop() {
                    Ok(v2) => v2,
                    Err(e) => {
                        return Err(e);
                    },
                };
                let _ = match self.pop() {
                    Ok(v2) => v2,
                    Err(e) => {
                        return Err(e);
                    },
                };
                match self.push(value) {
                    Ok(()) => Ok(Flow::Next),
                    Err(e) => Err(e),
                }
            },
            OpCode::GetSuper => {
                let name = match self.read_name_constant() {
                    Ok(n) => n,
                    Err(e) => {
                        return Err(e);
                    },
                };
                let sup = match self.pop() {
                    Ok(v) => v,
                    Err(e) => {
                        return Err(e);
                    },
                };
                let class = match sup {
                    Value::Object(i) => i,
                    _ => {
                        let e = self.error(RuntimeErrorKind::InvalidBytecode);
                        return Err(e);
                    },
                };
                let is_class = matches!(&self.heap.objects[class], Some(Obj::Class { .. }));
                if !is_class {
                    let e = self.error(RuntimeErrorKind::InvalidBytecode);
                    return Err(e);
                }
                if self.stack.len() == 0 {
                    let e = self.error(RuntimeErrorKind::InvalidBytecode);
                    return Err(e);
                }
                match self.bind_method(class, name) {
                    Ok(()) => Ok(Flow::Next),
                    Err(e) => Err(e),
                }
            },
        }
    }

    /// Records one line that `print` wrote.
    fn write_output(&mut self, line: Vec<u8>)
        requires
            old(self).wf(),
        ensures
            final(self).wf(),
            final(self).heap == old(self).heap,
            final(self).stack == old(self).stack,
            final(self).frames == old(self).frames,
            final(self).open_upvalues == old(self).open_upvalues,
            final(self).init_name == old(self).init_name,
            final(self).output@ == old(self).output@.push(line),
    {
        self.output.push(line);
        proof {
            assert forall|i: int|
                0 <= i < self.stack@.len() implies self.heap.valid_value(
                #[trigger] self.stack@[i],
            ) by {
                assert(old(self).heap.valid_value(old(self).stack@[i]));
            }
            assert forall|k: int|
                0 <= k < self.open_upvalues@.len() implies #[trigger] self.open_slot(k)
                < self.stack@.len() by {
                assert(old(self).open_slot(k) < old(self).stack@.len());
            }
            assert forall|k1: int, k2: int|
                0 <= k1 < k2 < self.open_upvalues@.len() implies #[trigger] self.open_slot(k1)
                > #[trigger] self.open_slot(k2) by {
                assert(self.open_slot(k1) == old(self).open_slot(k1));
                assert(self.open_slot(k2) == old(self).open_slot(k2));
                assert(old(self).open_slot(k1) > old(self).open_slot(k2));
            }
        }
    }

    /// Moves the current frame's cursor forward for a jump.
    fn jump_forward(&mut self, span: usize) -> (r: Result<Flow, RuntimeError>)
        requires
            old(self).wf(),
            old(self).frames@.len() >= 1,
        ensures
            final(self).wf(),
            final(self).frames@.len() == old(self).frames@.len(),
            r matches Ok(fl) ==> fl == Flow::Next,
            final(self).heap == old(self).heap,
            final(self).stack == old(self).stack,
            final(self).open_upvalues == old(self).open_upvalues,
            final(self).output == old(self).output,
            final(self).init_name == old(self).init_name,
            old(self).cur_ip() + span <= usize::MAX ==> r is Ok,
            r is Ok ==> final(self).cur_ip() == old(self).cur_ip() + span && final(self).top_frame().closure == old(self).top_frame().closure && final(self).top_frame().slots
                == old(self).top_frame().slots && forall|f: int|
                0 <= f < final(self).frames@.len() - 1 ==> #[trigger] final(self).frames@[f]
                    == old(self).frames@[f],
            r is Err ==> *final(self) == *old(self),
    {
        let fi = self.frames.len() - 1;
        let ip = self.frames[fi].ip.pos;
        if span > usize::MAX - ip {
            let e = self.error(RuntimeErrorKind::InvalidBytecode);
            return Err(e);
        }
        self.frames[fi].ip.pos = ip + span;
        proof {
            lemma_vm_frames(*old(self), *self);
        }
        Ok(Flow::Next)
    }

    /// Executes the `Closure` instruction: wraps the function constant in a
    /// fresh closure, capturing one upvalue per `(is_local, index)` pair.
    fn op_closure(&mut self) -> (r: Result<Flow, RuntimeError>)
        requires
            old(self).wf(),
            old(self).frames@.len() >= 1,
        ensures
            final(self).wf(),
            r == Result::<Flow, RuntimeError>::Ok(Flow::Next) ==> final(self).frames@.len() >= 1,
            !(r == Result::<Flow, RuntimeError>::Ok(Flow::Halt)),
            final(self).output == old(self).output,
            // On success a fresh closure lands on the stack, capturing one
            // upvalue per descriptor of its function.
            r == Result::<Flow, RuntimeError>::Ok(Flow::Next) ==> final(self).stack@.len() == old(
                self,
            ).stack@.len() + 1 && final(self).stack@.drop_last() == old(self).stack@ && (match final(self).stack@.last() {
                Value::Object(c) => final(self).heap.is_closure(c as int) && final(self).heap.closure_upvalues(c as int).len() == final(self).heap.function_of(
                    final(self).heap.closure_function(c as int) as int,
                ).upvalue_count,
                _ => false,
            }),
    {
        let v = match self.read_constant() {
            Ok(v) => v,
            Err(e) => {
                return Err(e);
            },
        };
        let fidx = match v {
            Value::Object(i) => i,
            _ => {
                let e = self.error(RuntimeErrorKind::InvalidBytecode);
                return Err(e);
            },
        };
        let count: usize = match &self.heap.objects[fidx] {
            Some(Obj::Function(f)) => f.upvalue_count,
            _ => {
                let e = self.error(RuntimeErrorKind::InvalidBytecode);
                return Err(e);
            },
        };
        let mut upvalues: Vec<usize> = Vec::new();
        let mut i: usize = 0;
        while i < count
            invariant
                self.wf(),
                self.frames@.len() >= 1,
                self.output == old(self).output,
                self.init_name == old(self).init_name,
                self.stack == old(self).stack,
                i <= count,
                upvalues@.len() == i,
                self.heap.is_function(fidx as int),
                self.heap.function_of(fidx as int).upvalue_count == count,
                forall|u: int|
                    0 <= u < i ==> self.heap.is_upvalue(#[trigger] upvalues@[u] as int),
            decreases count - i,
        {
            let is_local = match self.read_byte_operand() {
                Ok(b) => b,
                Err(e) => {
                    return Err(e);
                },
            };
            let index = match self.read_byte_operand() {
                Ok(b) => b,
                Err(e) => {
                    return Err(e);
                },
            };
            if is_local == 1 {
                let fi = self.frames.len() - 1;
                let base = self.frames[fi].slots;
                if index as usize > usize::MAX - base {
                    let e = self.error(RuntimeErrorKind::InvalidBytecode);
                    return Err(e);
                }
                let slot = base + index as usize;
                if slot >= self.stack.len() {
                    let e = self.error(RuntimeErrorKind::InvalidBytecode);
                    return Err(e);
                }
                let ghost pre = *self;
                let uv = self.capture_upvalue(slot);
                proof {
                    lemma_extends_wf(pre.heap, self.heap);
                    assert forall|u: int| 0 <= u < i implies self.heap.is_upvalue(
                        #[trigger] upvalues@[u] as int,
                    ) by {
                        assert(pre.heap.is_upvalue(upvalues@[u] as int));
                    }
                }
                upvalues.push(uv);
            } else {
                let fi = self.frames.len() - 1;
                let closure = self.frames[fi].closure;
                proof {
                    assert(self.heap.obj_wf(self.heap.obj_at(closure as int)));
                }
                let uv_opt: Option<usize> = match &self.heap.objects[closure] {
                    Some(Obj::Closure { upvalues: ups, .. }) => {
                        if (index as usize) < ups.len() {
                            Some(ups[index as usize])
                        } else {
                            None
                        }
                    },
                    _ => {
                        proof {
                            assert(false);
                        }
                        None
                    },
                };
                match uv_opt {
                    Some(uv) => {
                        upvalues.push(uv);
                    },
                    None => {
                        let e = self.error(RuntimeErrorKind::InvalidBytecode);
                        return Err(e);
                    },
                }
            }
            i = i + 1;
        }
        let ghost pre = *self;
        let c = self.heap.allocate_obj(Obj::Closure { function: fidx, upvalues }, 40);
        proof {
            let mid = Vm { heap: self.heap, ..pre };
            assert(mid == *self);
            lemma_vm_extend(pre, *self);
        }
        let res: Result<Flow, RuntimeError> = match self.push(Value::Object(c)) {
            Ok(()) => Ok(Flow::Next),
            Err(e) => Err(e),
        };
        proof {
            if res is Ok {
                assert(self.stack@.drop_last() =~= old(self).stack@);
                assert(self.heap.obj_wf(self.heap.obj_at(c as int)));
            }
        }
        res
    }

    /// Executes the `Inherit` instruction: the subclass on top of the stack
    /// receives every method of the superclass below it, then leaves the
    /// stack.
    fn op_inherit(&mut self) -> (r: Result<Flow, RuntimeError>)
        requires
            old(self).wf(),
            old(self).frames@.len() >= 1,
        ensures
            final(self).wf(),
            r == Result::<Flow, RuntimeError>::Ok(Flow::Next) ==> final(self).frames@.len() >= 1,
            !(r == Result::<Flow, RuntimeError>::Ok(Flow::Halt)),
            final(self).output == old(self).output,
    {
        let sup_v = match self.peek_at(1) {
            Ok(v) => v,
            Err(e) => {
                return Err(e);
            },
        };
        let sub_v = match self.peek_at(0) {
            Ok(v) => v,
            Err(e) => {
                return Err(e);
            },
        };
        let sup = match sup_v {
            Value::Object(i) => i,
            _ => {
                let e = self.error(RuntimeErrorKind::SuperclassMustBeClass);
                return Err(e);
            },
        };
        let sup_ok = matches!(&self.heap.objects[sup], Some(Obj::Class { .. }));
        if !sup_ok {
            let e = self.error(RuntimeErrorKind::SuperclassMustBeClass);
            return Err(e);
        }
        let sub = match sub_v {
            Value::Object(i) => i,
            _ => {
                let e = self.error(RuntimeErrorKind::InvalidBytecode);
                return Err(e);
            },
        };
        let sub_ok = matches!(&self.heap.objects[sub], Some(Obj::Class { .. }));
        if !sub_ok {
            let e = self.error(RuntimeErrorKind::InvalidBytecode);
            return Err(e);
        }
        proof {
            assert(self.heap.obj_wf(self.heap.obj_at(sup as int)));
        }
        let methods = match &self.heap.objects[sup] {
            Some(Obj::Class { methods, .. }) => copy_pairs(methods),
            _ => {
                proof {
                    assert(false);
                }
                Vec::new()
            },
        };
        let n = methods.len();
        let mut k: usize = 0;
        while k < n
            invariant
                self.wf(),
                self.frames@.len() >= 1,
                self.output == old(self).output,
                self.init_name == old(self).init_name,
                k <= n,
                n == methods@.len(),
                self.heap.is_class(sub as int),
                forall|m: int|
                    0 <= m < n ==> self.heap.is_str((#[trigger] methods@[m]).0 as int)
                        && self.heap.is_closure(methods@[m].1 as int),
            decreases n - k,
        {
            let (mname, mclosure) = methods[k];
            let ghost pre = *self;
            self.heap.add_method(sub, mname, mclosure);
            proof {
                assert(same_kind(self.heap.obj_at(sub as int), pre.heap.obj_at(sub as int)));
                lemma_vm_update(pre, *self, sub as int);
                assert forall|m: int|
                    0 <= m < n implies self.heap.is_str((#[trigger] methods@[m]).0 as int)
                    && self.heap.is_closure(methods@[m].1 as int) by {
                    assert(pre.heap.is_str(methods@[m].0 as int));
                    assert(pre.heap.is_closure(methods@[m].1 as int));
                    let mn = methods@[m].0 as int;
                    let mc = methods@[m].1 as int;
                    assert(self.heap.objects@[mn] == pre.heap.objects@[mn] || mn == sub as int);
                    assert(self.heap.objects@[mc] == pre.heap.objects@[mc] || mc == sub as int);
                }
            }
            k = k + 1;
        }
        match self.pop() {
            Ok(_) => Ok(Flow::Next),
            Err(e) => Err(e),
        }
    }

    /// Runs the dispatch loop until the script returns or a runtime error
    /// aborts this interpretation; an error resets the machine. Either way
    /// both the value stack and the frame stack end empty.
    pub fn run(&mut self) -> (r: Result<(), RuntimeError>)
        requires
            old(self).wf(),
            old(self).frames@.len() >= 1,
        ensures
            final(self).wf(),
            final(self).stack@.len() == 0,
            final(self).frames@.len() == 0,
            final(self).open_upvalues@.len() == 0,
            old(self).output@.is_prefix_of(final(self).output@),
    {
        // The step budget can never be spent in practice; it bounds the
        // loop so that every run provably ends.
        let mut fuel: u64 = u64::MAX;
        loop
            invariant
                self.wf(),
                self.frames@.len() >= 1,
                old(self).output@.is_prefix_of(self.output@),
            decreases fuel,
        {
            // The allocation threshold: crossing it triggers a collection
            // between instructions, before the next one allocates.
            if self.heap.bytes_allocated > self.heap.next_gc {
                self.collect_garbage();
            }
            if fuel == 0 {
                let e = self.error(RuntimeErrorKind::StackOverflow);
                self.stack.clear();
                self.frames.clear();
                self.open_upvalues.clear();
                return Err(e);
            }
            fuel = fuel - 1;
            match self.step() {
                Ok(Flow::Next) => {},
                Ok(Flow::Halt) => {
                    // The script returned: its frame closed every upvalue at
                    // or above stack slot zero, so none stay open.
                    proof {
                        if self.open_upvalues@.len() > 0 {
                            assert(self.open_slot(0) < 0);
                            assert(self.heap.upvalue_state(self.open_upvalues@[0] as int)
                                is Open);
                        }
                    }
                    assert(self.open_upvalues@.len() == 0);
                    return Ok(());
                },
                Err(e) => {
                    // A runtime error aborts this interpretation: both stacks
                    // reset, as does the open-upvalue list.
                    self.stack.clear();
                    self.frames.clear();
                    self.open_upvalues.clear();
                    return Err(e);
                },
            }
        }
    }

    /// Hands out the lines `print` wrote since the last call.
    pub fn take_output(&mut self) -> (r: Vec<Vec<u8>>)
        ensures
            final(self).output@.len() == 0,
            r == old(self).output,
            final(self).stack == old(self).stack,
            final(self).frames == old(self).frames,
            final(self).heap == old(self).heap,
            final(self).open_upvalues == old(self).open_upvalues,
            final(self).init_name == old(self).init_name,
    {
        let mut out: Vec<Vec<u8>> = Vec::new();
        core::mem::swap(&mut out, &mut self.output);
        out
    }

    /// Compiles and runs a whole source. After a successful run both stacks
    /// are empty; the heap (globals included) carries over to the next
    /// interpretation, as a session expects.
    pub fn interpret(&mut self, source: Vec<u8>) -> (r: Result<(), Error>)
        requires
            old(self).wf(),
            old(self).stack@.len() == 0,
            old(self).frames@.len() == 0,
            old(self).open_upvalues@.len() == 0,
        ensures
            final(self).wf(),
            final(self).stack@.len() == 0,
            final(self).frames@.len() == 0,
            final(self).open_upvalues@.len() == 0,
            old(self).output@.is_prefix_of(final(self).output@),
            r matches Err(Error::Compiler(_)) ==> final(self).output == old(self).output,
    {
        let mut heap = Heap::new();
        core::mem::swap(&mut heap, &mut self.heap);
        let (compiled, heap_back) = compile(source, heap);
        let ghost pre = *self;
        self.heap = heap_back;
        proof {
            lemma_extends_wf(old(self).heap, self.heap);
            assert(self.heap.is_str(self.init_name as int));
            assert(self.wf());
        }
        let fidx = match compiled {
            Ok(f) => f,
            Err(e) => {
                return Err(Error::Compiler(e));
            },
        };
        let ghost pre_alloc = *self;
        let closure = self.heap.allocate_obj(
            Obj::Closure { function: fidx, upvalues: Vec::new() },
            40,
        );
        proof {
            let mid = Vm { heap: self.heap, ..pre_alloc };
            assert(mid == *self);
            lemma_vm_extend(pre_alloc, *self);
        }
        match self.push(Value::Object(closure)) {
            Ok(()) => {},
            Err(e) => {
                self.stack.clear();
                return Err(Error::Runtime(e));
            },
        }
        let ghost pre_frame = *self;
        let frame = CallFrame::new(closure, 0);
        self.frames.push(frame);
        proof {
            lemma_vm_frames(pre_frame, *self);
        }
        match self.run() {
            Ok(()) => Ok(()),
            Err(e) => Err(Error::Runtime(e)),
        }
    }
}

/// The machine stays well-formed when one upvalue closes in place.
proof fn lemma_vm_update_upvalue(a: Vm, b: Vm, target: int)
    requires
        a.wf(),
        b.heap.wf(),
        a.heap.live(target),
        a.heap.obj_at(target) is Upvalue,
        b.heap.live(target),
        b.heap.obj_at(target) is Upvalue,
        forall|k: int| 0 <= k < a.open_upvalues@.len() ==> a.open_upvalues@[k] != target,
        b.heap.objects@.len() == a.heap.objects@.len(),
        forall|j: int|
            0 <= j < b.heap.objects@.len() && j != target ==> #[trigger] b.heap.objects@[j]
                == a.heap.objects@[j],
        b.stack == a.stack,
        b.frames == a.frames,
        b.open_upvalues == a.open_upvalues,
        b.init_name == a.init_name,
    ensures
        b.wf(),
{
    assert forall|i: int| 0 <= i < b.stack@.len() implies b.heap.valid_value(
        #[trigger] b.stack@[i],
    ) by {
        assert(a.heap.valid_value(a.stack@[i]));
    }
    assert forall|f: int| 0 <= f < b.frames@.len() implies b.heap.is_closure(
        (#[trigger] b.frames@[f]).closure as int,
    ) by {
        assert(a.heap.is_closure(a.frames@[f].closure as int));
    }
    assert forall|k: int| 0 <= k < b.open_upvalues@.len() implies b.heap.is_upvalue(
        #[trigger] b.open_upvalues@[k] as int,
    ) && b.heap.upvalue_state(b.open_upvalues@[k] as int) is Open by {
        assert(a.heap.is_upvalue(a.open_upvalues@[k] as int));
        assert(a.open_upvalues@[k] != target);
    }
    assert forall|k: int| 0 <= k < b.open_upvalues@.len() implies #[trigger] b.open_slot(k)
        < b.stack@.len() by {
        assert(a.heap.is_upvalue(a.open_upvalues@[k] as int));
        assert(a.open_upvalues@[k] != target);
        assert(b.open_slot(k) == a.open_slot(k));
        assert(a.open_slot(k) < a.stack@.len());
    }
    assert forall|k1: int, k2: int|
        0 <= k1 < k2 < b.open_upvalues@.len() implies #[trigger] b.open_slot(k1)
        > #[trigger] b.open_slot(k2) by {
        assert(a.heap.is_upvalue(a.open_upvalues@[k1] as int));
        assert(a.heap.is_upvalue(a.open_upvalues@[k2] as int));
        assert(a.open_upvalues@[k1] != target && a.open_upvalues@[k2] != target);
        assert(b.open_slot(k1) == a.open_slot(k1));
        assert(b.open_slot(k2) == a.open_slot(k2));
        assert(a.open_slot(k1) > a.open_slot(k2));
    }
}

impl Vm {
    /// The open-upvalue list is strictly descending by captured stack slot:
    /// in particular, no two open upvalues capture the same slot.
    pub proof fn lemma_upvalue_order(self, k1: int, k2: int)
        requires
            self.wf(),
            0 <= k1 < self.open_upvalues@.len(),
            0 <= k2 < self.open_upvalues@.len(),
            k1 < k2,
        ensures
            self.open_slot(k1) > self.open_slot(k2),
            self.open_upvalues@[k1] != self.open_upvalues@[k2],
    {
        assert(self.open_slot(k1) > self.open_slot(k2));
    }
}

} // verus!
