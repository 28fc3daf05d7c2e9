//! The heap and object model: objects live in an allocation list and are
//! referenced by index; strings are interned by content; the global
//! environment maps interned names to values.
use vstd::prelude::*;

use crate::chunk::Chunk;
use crate::value::Value;

verus! {

/// A function object: its arity, how many upvalues its closures capture, its
/// bytecode, and optionally its interned name.
pub struct ObjFunction {
    pub arity: u8,
    pub upvalue_count: usize,
    pub chunk: Chunk,
    pub name: Option<usize>,
}

/// An upvalue is open while the captured variable still lives on the value
/// stack (it names the slot), and closed once the value migrated into the
/// upvalue itself.
#[derive(Debug, Clone, Copy, PartialEq, Eq, Structural)]
pub enum UpvalueState {
    Open(usize),
    Closed(Value),
}

/// A heap object. Fields that reference other objects hold their index in
/// the allocation list.
pub enum Obj {
    /// An interned, immutable byte string.
    Str(Vec<u8>),
    /// A compiled function.
    Function(ObjFunction),
    /// A function together with its captured upvalues.
    Closure { function: usize, upvalues: Vec<usize> },
    /// A captured variable.
    Upvalue(UpvalueState),
    /// A class: its name and its method table (name object to closure).
    Class { name: usize, methods: Vec<(usize, usize)> },
    /// An instance: its class and its field table (name object to value).
    Instance { class: usize, fields: Vec<(usize, Value)> },
    /// A method bound to the receiver it was read from.
    BoundMethod { receiver: Value, method: usize },
}

/// The value an association list gives to a key: the latest entry wins.
pub open spec fn assoc_value<V>(entries: Seq<(usize, V)>, key: usize) -> Option<V>
    decreases entries.len(),
{
    if entries.len() == 0 {
        None
    } else if entries.last().0 == key {
        Some(entries.last().1)
    } else {
        assoc_value(entries.drop_last(), key)
    }
}

/// Updating the entry that holds a key rewrites what the list gives that key
/// and nothing else.
pub proof fn lemma_assoc_update<V>(entries: Seq<(usize, V)>, k: int, v: V, key: usize, m: usize)
    requires
        0 <= k < entries.len(),
        entries[k].0 == key,
        forall|j: int| 0 <= j < entries.len() && j != k ==> entries[j].0 != key,
    ensures
        assoc_value(entries.update(k, (key, v)), m) == if m == key {
            Some(v)
        } else {
            assoc_value(entries, m)
        },
    decreases entries.len(),
{
    let updated = entries.update(k, (key, v));
    if k == entries.len() - 1 {
        assert(updated.last() == (key, v));
        if m != key {
            assert(updated.drop_last() =~= entries.drop_last());
        }
    } else {
        assert(updated.last() == entries.last());
        assert(updated.drop_last() =~= entries.drop_last().update(k, (key, v)));
        lemma_assoc_update(entries.drop_last(), k, v, key, m);
    }
}

/// Appending a fresh key gives that key its value and leaves the others.
pub proof fn lemma_assoc_push<V>(entries: Seq<(usize, V)>, key: usize, v: V, m: usize)
    ensures
        assoc_value(entries.push((key, v)), m) == if m == key {
            Some(v)
        } else {
            assoc_value(entries, m)
        },
{
    assert(entries.push((key, v)).last() == (key, v));
    if m != key {
        assert(entries.push((key, v)).drop_last() =~= entries);
    }
}

/// No two entries of an association list hold the same key.
pub open spec fn distinct_keys<V>(entries: Seq<(usize, V)>) -> bool {
    forall|j1: int, j2: int|
        0 <= j1 < entries.len() && 0 <= j2 < entries.len() && j1 != j2 ==> (
        #[trigger] entries[j1].0) != (#[trigger] entries[j2].0)
}

/// Binds a key in an association list with pairwise-distinct keys,
/// overwriting its entry when one exists. Every resulting entry is either
/// the new binding or an entry the list already had.
pub fn assoc_set<V: Copy>(entries: &mut Vec<(usize, V)>, key: usize, v: V)
    requires
        distinct_keys(old(entries)@),
    ensures
        distinct_keys(final(entries)@),
        final(entries)@.len() >= old(entries)@.len(),
        forall|j: int|
            0 <= j < final(entries)@.len() ==> ((#[trigger] final(entries)@[j]) == (key, v) || (0
                <= j < old(entries)@.len() && final(entries)@[j] == old(entries)@[j])),
        assoc_value(final(entries)@, key) == Some(v),
        forall|m: usize|
            m != key ==> #[trigger] assoc_value(final(entries)@, m) == assoc_value(
                old(entries)@,
                m,
            ),
{
    let n = entries.len();
    let mut k: usize = 0;
    while k < n
        invariant
            distinct_keys(entries@),
            entries == old(entries),
            n == entries@.len(),
            k <= n,
            forall|j: int| 0 <= j < k ==> (#[trigger] entries@[j].0) != key,
        decreases n - k,
    {
        let (existing, _) = entries[k];
        if existing == key {
            entries[k] = (key, v);
            proof {
                assert forall|m: usize|
                    m != key implies #[trigger] assoc_value(entries@, m) == assoc_value(
                    old(entries)@,
                    m,
                ) by {
                    lemma_assoc_update(old(entries)@, k as int, v, key, m);
                }
                lemma_assoc_update(old(entries)@, k as int, v, key, key);
                assert(forall|j: int|
                    0 <= j < entries@.len() ==> (#[trigger] entries@[j].0) == old(
                        entries,
                    )@[j].0);
            }
            return;
        }
        k = k + 1;
    }
    entries.push((key, v));
    proof {
        assert(forall|j: int|
            0 <= j < old(entries)@.len() ==> #[trigger] entries@[j] == old(entries)@[j]);
        assert(entries@[entries@.len() - 1] == (key, v));
        assert forall|j1: int, j2: int|
            0 <= j1 < entries@.len() && 0 <= j2 < entries@.len() && j1 != j2 implies (
        #[trigger] entries@[j1].0) != (#[trigger] entries@[j2].0) by {
            let last = entries@.len() - 1;
            if j1 < last && j2 < last {
                assert(old(entries)@[j1].0 != old(entries)@[j2].0);
            }
        }
        assert forall|m: usize|
            m != key implies #[trigger] assoc_value(entries@, m) == assoc_value(
            old(entries)@,
            m,
        ) by {
            lemma_assoc_push(old(entries)@, key, v, m);
        }
        lemma_assoc_push(old(entries)@, key, v, key);
    }
}

/// The heap: the allocation list (slots freed by the collector are `None`),
/// the mark bits, the intern table, the global environment, and the
/// allocation accounting that triggers collection.
pub struct Heap {
    pub objects: Vec<Option<Obj>>,
    pub marks: Vec<bool>,
    pub strings: Vec<usize>,
    pub globals: Vec<(usize, Value)>,
    pub bytes_allocated: usize,
    pub next_gc: usize,
}

impl Heap {
    /// Slot `i` holds a live object.
    pub open spec fn live(self, i: int) -> bool {
        0 <= i < self.objects@.len() && self.objects@[i] is Some
    }

    /// The object in slot `i`.
    pub open spec fn obj_at(self, i: int) -> Obj {
        self.objects@[i].unwrap()
    }

    pub open spec fn is_str(self, i: int) -> bool {
        self.live(i) && self.obj_at(i) is Str
    }

    pub open spec fn is_function(self, i: int) -> bool {
        self.live(i) && self.obj_at(i) is Function
    }

    pub open spec fn is_closure(self, i: int) -> bool {
        self.live(i) && self.obj_at(i) is Closure
    }

    pub open spec fn is_upvalue(self, i: int) -> bool {
        self.live(i) && self.obj_at(i) is Upvalue
    }

    pub open spec fn is_class(self, i: int) -> bool {
        self.live(i) && self.obj_at(i) is Class
    }

    pub open spec fn is_instance(self, i: int) -> bool {
        self.live(i) && self.obj_at(i) is Instance
    }

    pub open spec fn is_bound_method(self, i: int) -> bool {
        self.live(i) && self.obj_at(i) is BoundMethod
    }

    /// The content of the string in slot `i`.
    pub open spec fn str_chars(self, i: int) -> Seq<u8> {
        match self.obj_at(i) {
            Obj::Str(cs) => cs@,
            _ => Seq::empty(),
        }
    }

    pub open spec fn function_of(self, i: int) -> ObjFunction {
        match self.obj_at(i) {
            Obj::Function(f) => f,
            _ => arbitrary(),
        }
    }

    pub open spec fn closure_function(self, i: int) -> usize {
        match self.obj_at(i) {
            Obj::Closure { function, .. } => function,
            _ => arbitrary(),
        }
    }

    pub open spec fn closure_upvalues(self, i: int) -> Seq<usize> {
        match self.obj_at(i) {
            Obj::Closure { upvalues, .. } => upvalues@,
            _ => arbitrary(),
        }
    }

    pub open spec fn upvalue_state(self, i: int) -> UpvalueState {
        match self.obj_at(i) {
            Obj::Upvalue(st) => st,
            _ => arbitrary(),
        }
    }

    pub open spec fn class_name(self, i: int) -> usize {
        match self.obj_at(i) {
            Obj::Class { name, .. } => name,
            _ => arbitrary(),
        }
    }

    pub open spec fn class_methods(self, i: int) -> Seq<(usize, usize)> {
        match self.obj_at(i) {
            Obj::Class { methods, .. } => methods@,
            _ => arbitrary(),
        }
    }

    pub open spec fn instance_class(self, i: int) -> usize {
        match self.obj_at(i) {
            Obj::Instance { class, .. } => class,
            _ => arbitrary(),
        }
    }

    pub open spec fn instance_fields(self, i: int) -> Seq<(usize, Value)> {
        match self.obj_at(i) {
            Obj::Instance { fields, .. } => fields@,
            _ => arbitrary(),
        }
    }

    pub open spec fn bound_receiver(self, i: int) -> Value {
        match self.obj_at(i) {
            Obj::BoundMethod { receiver, .. } => receiver,
            _ => arbitrary(),
        }
    }

    pub open spec fn bound_method(self, i: int) -> usize {
        match self.obj_at(i) {
            Obj::BoundMethod { method, .. } => method,
            _ => arbitrary(),
        }
    }

    /// A value's object reference, if any, is live.
    pub open spec fn valid_value(self, v: Value) -> bool {
        match v {
            Value::Object(i) => self.live(i as int),
            _ => true,
        }
    }

    /// Every reference a single object holds is live and of the right kind.
    pub open spec fn obj_wf(self, o: Obj) -> bool {
        match o {
            Obj::Str(_) => true,
            Obj::Function(f) => {
                &&& (f.name matches Some(n) ==> self.is_str(n as int))
                &&& f.chunk.wf()
                &&& forall|c: int|
                    0 <= c < f.chunk.constants@.len() ==> self.valid_value(
                        #[trigger] f.chunk.constants@[c],
                    )
            },
            Obj::Closure { function, upvalues } => {
                &&& self.is_function(function as int)
                &&& upvalues@.len() == self.function_of(function as int).upvalue_count
                &&& forall|u: int|
                    0 <= u < upvalues@.len() ==> self.is_upvalue(#[trigger] upvalues@[u] as int)
            },
            Obj::Upvalue(st) => match st {
                UpvalueState::Open(_) => true,
                UpvalueState::Closed(v) => self.valid_value(v),
            },
            Obj::Class { name, methods } => {
                &&& self.is_str(name as int)
                &&& forall|m: int|
                    0 <= m < methods@.len() ==> self.is_str(#[trigger] methods@[m].0 as int)
                        && self.is_closure(methods@[m].1 as int)
                &&& distinct_keys(methods@)
            },
            Obj::Instance { class, fields } => {
                &&& self.is_class(class as int)
                &&& forall|m: int|
                    0 <= m < fields@.len() ==> self.is_str(#[trigger] fields@[m].0 as int)
                        && self.valid_value(fields@[m].1)
                &&& distinct_keys(fields@)
            },
            Obj::BoundMethod { receiver, method } => {
                &&& self.valid_value(receiver)
                &&& self.is_closure(method as int)
            },
        }
    }

    /// Whether a string object is recorded in the intern table.
    pub open spec fn in_intern_table(self, i: int) -> bool {
        exists|k: int| 0 <= k < self.strings@.len() && self.strings@[k] == i
    }

    /// The heap's invariant: mark bits parallel the slots; every live object
    /// is internally well-formed; the intern table lists exactly the live
    /// strings, no two with the same content; the global environment binds
    /// interned names, each once, to live values.
    pub open spec fn wf(self) -> bool {
        &&& self.objects@.len() == self.marks@.len()
        &&& forall|i: int| self.live(i) ==> self.obj_wf(#[trigger] self.obj_at(i))
        &&& forall|k: int|
            0 <= k < self.strings@.len() ==> self.is_str(#[trigger] self.strings@[k] as int)
        &&& forall|k1: int, k2: int|
            0 <= k1 < self.strings@.len() && 0 <= k2 < self.strings@.len() && k1 != k2
                ==> self.str_chars(#[trigger] self.strings@[k1] as int) != self.str_chars(
                #[trigger] self.strings@[k2] as int,
            )
        &&& forall|i: int| #[trigger] self.is_str(i) ==> self.in_intern_table(i)
        &&& forall|g: int|
            0 <= g < self.globals@.len() ==> self.is_str(#[trigger] self.globals@[g].0 as int)
                && self.valid_value(self.globals@[g].1)
        &&& forall|g1: int, g2: int|
            0 <= g1 < self.globals@.len() && 0 <= g2 < self.globals@.len() && g1 != g2
                ==> (#[trigger] self.globals@[g1].0) != (#[trigger] self.globals@[g2].0)
    }

    /// The value bound to a global name.
    pub open spec fn spec_global(self, name: usize) -> Option<Value> {
        assoc_value(self.globals@, name)
    }

    /// `new` keeps every old slot of `old` unchanged and may add more.
    pub open spec fn extends(self, older: Heap) -> bool {
        &&& older.objects@.len() <= self.objects@.len()
        &&& forall|i: int|
            0 <= i < older.objects@.len() ==> #[trigger] self.objects@[i] == older.objects@[i]
    }

    /// An empty heap, with the default collection threshold.
    pub fn new() -> (r: Heap)
        ensures
            r.wf(),
            r.objects@.len() == 0,
            r.strings@.len() == 0,
            r.globals@.len() == 0,
    {
        Heap {
            objects: Vec::new(),
            marks: Vec::new(),
            strings: Vec::new(),
            globals: Vec::new(),
            bytes_allocated: 0,
            next_gc: 1048576,
        }
    }

    /// Adds `amount` to the allocation account, saturating.
    fn account(&mut self, amount: usize)
        ensures
            final(self).objects == old(self).objects,
            final(self).marks == old(self).marks,
            final(self).strings == old(self).strings,
            final(self).globals == old(self).globals,
            final(self).next_gc == old(self).next_gc,
    {
        if self.bytes_allocated <= usize::MAX - amount {
            self.bytes_allocated = self.bytes_allocated + amount;
        } else {
            self.bytes_allocated = usize::MAX;
        }
    }

    /// Appends a non-string object to the allocation list and returns its
    /// index. Strings go through `intern_string`, which keeps content unique.
    pub fn allocate_obj(&mut self, obj: Obj, size: usize) -> (r: usize)
        requires
            old(self).wf(),
            old(self).obj_wf(obj),
            !(obj is Str),
        ensures
            final(self).wf(),
            final(self).extends(*old(self)),
            r as int == old(self).objects@.len(),
            final(self).objects@ == old(self).objects@.push(Some(obj)),
            final(self).live(r as int),
            final(self).obj_at(r as int) == obj,
            final(self).strings == old(self).strings,
            final(self).globals == old(self).globals,
    {
        let r = self.objects.len();
        self.objects.push(Some(obj));
        self.marks.push(false);
        self.account(size);
        proof {
            lemma_extends_wf(*old(self), *self);
            assert forall|i: int| self.live(i) implies self.obj_wf(#[trigger] self.obj_at(i)) by {
                if i < old(self).objects@.len() {
                    assert(old(self).obj_wf(old(self).obj_at(i)));
                } else {
                    assert(self.obj_at(i) == obj);
                    lemma_extends_obj_wf(*old(self), *self, obj);
                }
            }
            assert forall|i: int| #[trigger] self.is_str(i) implies self.in_intern_table(i) by {
                if i < old(self).objects@.len() {
                    assert(old(self).is_str(i));
                }
            }
        }
        r
    }

    /// Returns the interned string object whose content equals `chars`,
    /// allocating and recording it when none exists yet.
    pub fn intern_string(&mut self, chars: Vec<u8>) -> (r: usize)
        requires
            old(self).wf(),
        ensures
            final(self).wf(),
            final(self).extends(*old(self)),
            final(self).is_str(r as int),
            final(self).str_chars(r as int) == chars@,
            final(self).globals == old(self).globals,
            final(self).objects@.len() <= old(self).objects@.len() + 1,
            final(self).strings@.len() >= old(self).strings@.len(),
    {
        let n = self.strings.len();
        let mut k: usize = 0;
        while k < n
            invariant
                self.wf(),
                self == old(self),
                n == self.strings@.len(),
                k <= n,
                forall|k2: int|
                    0 <= k2 < k ==> self.str_chars(#[trigger] self.strings@[k2] as int) != chars@,
            decreases n - k,
        {
            let si = self.strings[k];
            let matched = match &self.objects[si] {
                Some(Obj::Str(cs)) => cs == &chars,
                _ => false,
            };
            if matched {
                proof {
                    assert(self.str_chars(si as int) =~= chars@);
                }
                return si;
            }
            proof {
                let cs = self.str_chars(self.strings@[k as int] as int);
                if cs == chars@ {
                    assert(cs =~= chars@);
                    assert(false);
                }
            }
            k = k + 1;
        }
        // Not interned yet: allocate and record it.
        let size = if chars.len() <= usize::MAX - 24 {
            24 + chars.len()
        } else {
            usize::MAX
        };
        let r = self.objects.len();
        self.objects.push(Some(Obj::Str(chars)));
        self.marks.push(false);
        self.strings.push(r);
        self.account(size);
        proof {
            lemma_extends_wf(*old(self), *self);
            assert(self.obj_wf(self.obj_at(r as int)));
            assert forall|i: int| self.live(i) implies self.obj_wf(#[trigger] self.obj_at(i)) by {
                if i < old(self).objects@.len() {
                    assert(old(self).obj_wf(old(self).obj_at(i)));
                }
            }
            assert forall|i: int| #[trigger] self.is_str(i) implies self.in_intern_table(i) by {
                if i < old(self).objects@.len() {
                    assert(old(self).is_str(i));
                    let k0 = choose|k0: int|
                        0 <= k0 < old(self).strings@.len() && old(self).strings@[k0] == i;
                    assert(self.strings@[k0] == i);
                } else {
                    assert(self.strings@[self.strings@.len() - 1] == r);
                }
            }
            assert forall|k1: int, k2: int|
                0 <= k1 < self.strings@.len() && 0 <= k2 < self.strings@.len() && k1
                    != k2 implies self.str_chars(#[trigger] self.strings@[k1] as int)
                != self.str_chars(#[trigger] self.strings@[k2] as int) by {
                let last = self.strings@.len() - 1;
                if k1 < last && k2 < last {
                    assert(old(self).str_chars(old(self).strings@[k1] as int) != old(
                        self,
                    ).str_chars(old(self).strings@[k2] as int));
                }
            }
        }
        r
    }

    /// The value bound to a global name, if any.
    pub fn get_global(&self, name: usize) -> (r: Option<Value>)
        requires
            self.wf(),
        ensures
            r == self.spec_global(name),
            r matches Some(v) ==> self.valid_value(v),
    {
        let n = self.globals.len();
        let mut k: usize = 0;
        while k < n
            invariant
                self.wf(),
                n == self.globals@.len(),
                k <= n,
                forall|j: int| 0 <= j < k ==> (#[trigger] self.globals@[j].0) != name,
            decreases n - k,
        {
            let (key, v) = self.globals[k];
            if key == name {
                proof {
                    lemma_assoc_found(self.globals@, k as int, name);
                }
                return Some(v);
            }
            k = k + 1;
        }
        proof {
            lemma_assoc_missing(self.globals@, name);
        }
        None
    }

    /// Binds a global name, overwriting any earlier binding.
    pub fn set_global(&mut self, name: usize, v: Value)
        requires
            old(self).wf(),
            old(self).is_str(name as int),
            old(self).valid_value(v),
        ensures
            final(self).wf(),
            final(self).objects == old(self).objects,
            final(self).marks == old(self).marks,
            final(self).strings == old(self).strings,
            final(self).spec_global(name) == Some(v),
            forall|m: usize|
                m != name ==> #[trigger] final(self).spec_global(m) == old(self).spec_global(m),
    {
        let n = self.globals.len();
        let mut k: usize = 0;
        while k < n
            invariant
                self.wf(),
                self == old(self),
                old(self).is_str(name as int),
                old(self).valid_value(v),
                n == self.globals@.len(),
                k <= n,
                forall|j: int| 0 <= j < k ==> (#[trigger] self.globals@[j].0) != name,
            decreases n - k,
        {
            let (key, _) = self.globals[k];
            if key == name {
                self.globals[k] = (name, v);
                proof {
                    assert forall|g: int|
                        0 <= g < self.globals@.len() implies old(self).is_str(
                        #[trigger] self.globals@[g].0 as int,
                    ) && old(self).valid_value(self.globals@[g].1) by {
                        if g != k {
                            assert(self.globals@[g] == old(self).globals@[g]);
                        } else {
                            assert(self.globals@[g] == (name, v));
                        }
                    }
                    assert(forall|g: int|
                        0 <= g < self.globals@.len() ==> (#[trigger] self.globals@[g].0) == old(
                            self,
                        ).globals@[g].0);
                    lemma_wf_globals_change(*old(self), *self);
                    assert forall|m: usize|
                        m != name implies #[trigger] self.spec_global(m) == old(self).spec_global(
                        m,
                    ) by {
                        lemma_assoc_update(old(self).globals@, k as int, v, name, m);
                    }
                    lemma_assoc_update(old(self).globals@, k as int, v, name, name);
                }
                return;
            }
            k = k + 1;
        }
        self.globals.push((name, v));
        proof {
            assert(forall|g: int|
                0 <= g < old(self).globals@.len() ==> #[trigger] self.globals@[g] == old(
                    self,
                ).globals@[g]);
            assert(self.globals@[self.globals@.len() - 1] == (name, v));
            assert forall|g: int|
                0 <= g < self.globals@.len() implies old(self).is_str(
                #[trigger] self.globals@[g].0 as int,
            ) && old(self).valid_value(self.globals@[g].1) by {
                if g < old(self).globals@.len() {
                    assert(self.globals@[g] == old(self).globals@[g]);
                } else {
                    assert(self.globals@[g] == (name, v));
                }
            }
            assert forall|g1: int, g2: int|
                0 <= g1 < self.globals@.len() && 0 <= g2 < self.globals@.len() && g1
                    != g2 implies (#[trigger] self.globals@[g1].0) != (
            #[trigger] self.globals@[g2].0) by {
                let last = self.globals@.len() - 1;
                if g1 < last && g2 < last {
                    assert(old(self).globals@[g1].0 != old(self).globals@[g2].0);
                }
            }
            lemma_wf_globals_change(*old(self), *self);
            assert forall|m: usize|
                m != name implies #[trigger] self.spec_global(m) == old(self).spec_global(m) by {
                lemma_assoc_push(old(self).globals@, name, v, m);
            }
            lemma_assoc_push(old(self).globals@, name, v, name);
        }
    }
}

/// Changing only the global environment (to interned names, each once, and
/// live values) keeps the heap well-formed.
proof fn lemma_wf_globals_change(a: Heap, b: Heap)
    requires
        a.wf(),
        b.objects == a.objects,
        b.marks == a.marks,
        b.strings == a.strings,
        forall|g: int|
            0 <= g < b.globals@.len() ==> a.is_str(#[trigger] b.globals@[g].0 as int)
                && a.valid_value(b.globals@[g].1),
        forall|g1: int, g2: int|
            0 <= g1 < b.globals@.len() && 0 <= g2 < b.globals@.len() && g1 != g2 ==> (
            #[trigger] b.globals@[g1].0) != (#[trigger] b.globals@[g2].0),
    ensures
        b.wf(),
{
    assert(b.extends(a));
    assert forall|i: int| b.live(i) implies b.obj_wf(#[trigger] b.obj_at(i)) by {
        assert(a.live(i));
        assert(a.obj_wf(a.obj_at(i)));
        lemma_extends_obj_wf(a, b, b.obj_at(i));
    }
    assert forall|k: int| 0 <= k < b.strings@.len() implies b.is_str(
        #[trigger] b.strings@[k] as int,
    ) by {
        assert(a.is_str(a.strings@[k] as int));
    }
    assert forall|i: int| #[trigger] b.is_str(i) implies b.in_intern_table(i) by {
        assert(a.is_str(i));
        let k0 = choose|k0: int| 0 <= k0 < a.strings@.len() && a.strings@[k0] == i;
        assert(b.strings@[k0] == i);
    }
    assert forall|k1: int, k2: int|
        0 <= k1 < b.strings@.len() && 0 <= k2 < b.strings@.len() && k1 != k2 implies b.str_chars(
        #[trigger] b.strings@[k1] as int,
    ) != b.str_chars(#[trigger] b.strings@[k2] as int) by {
        assert(a.str_chars(a.strings@[k1] as int) != a.str_chars(a.strings@[k2] as int));
    }
    assert forall|g: int| 0 <= g < b.globals@.len() implies b.is_str(
        #[trigger] b.globals@[g].0 as int,
    ) && b.valid_value(b.globals@[g].1) by {
        assert(a.is_str(b.globals@[g].0 as int));
    }
}

/// When a key occurs at position `k` of a list with pairwise-distinct keys,
/// the list gives that key the value at `k`.
pub proof fn lemma_assoc_found<V>(entries: Seq<(usize, V)>, k: int, key: usize)
    requires
        0 <= k < entries.len(),
        entries[k].0 == key,
        forall|j1: int, j2: int|
            0 <= j1 < entries.len() && 0 <= j2 < entries.len() && j1 != j2 ==> (
            #[trigger] entries[j1].0) != (#[trigger] entries[j2].0),
    ensures
        assoc_value(entries, key) == Some(entries[k].1),
    decreases entries.len(),
{
    if k == entries.len() - 1 {
    } else {
        assert(entries.last().0 != key);
        assert(entries.drop_last()[k] == entries[k]);
        lemma_assoc_found(entries.drop_last(), k, key);
    }
}

/// A key no entry holds is unbound.
pub proof fn lemma_assoc_missing<V>(entries: Seq<(usize, V)>, key: usize)
    requires
        forall|j: int| 0 <= j < entries.len() ==> (#[trigger] entries[j].0) != key,
    ensures
        assoc_value(entries, key) is None,
    decreases entries.len(),
{
    if entries.len() > 0 {
        lemma_assoc_missing(entries.drop_last(), key);
    }
}

/// Growing the heap by appending slots keeps every judgment about the old
/// slots: liveness, kinds, content, and per-object well-formedness.
pub proof fn lemma_extends_wf(older: Heap, newer: Heap)
    requires
        newer.extends(older),
    ensures
        forall|i: int| older.live(i) ==> newer.live(i) && newer.obj_at(i) == older.obj_at(i),
        forall|i: int| #[trigger] older.is_str(i) ==> newer.is_str(i),
        forall|i: int| #[trigger] older.is_function(i) ==> newer.is_function(i),
        forall|i: int| #[trigger] older.is_closure(i) ==> newer.is_closure(i),
        forall|i: int| #[trigger] older.is_upvalue(i) ==> newer.is_upvalue(i),
        forall|i: int| #[trigger] older.is_class(i) ==> newer.is_class(i),
        forall|i: int| #[trigger] older.is_instance(i) ==> newer.is_instance(i),
        forall|i: int| #[trigger] older.is_bound_method(i) ==> newer.is_bound_method(i),
{
}

/// Growing the heap keeps a single object's well-formedness.
pub proof fn lemma_extends_obj_wf(older: Heap, newer: Heap, o: Obj)
    requires
        newer.extends(older),
        older.obj_wf(o),
    ensures
        newer.obj_wf(o),
{
    lemma_extends_wf(older, newer);
    match o {
        Obj::Function(f) => {
            assert forall|c: int| 0 <= c < f.chunk.constants@.len() implies newer.valid_value(
                #[trigger] f.chunk.constants@[c],
            ) by {
                assert(older.valid_value(f.chunk.constants@[c]));
            }
        },
        Obj::Closure { function, upvalues } => {
            assert(older.is_function(function as int));
            assert(newer.function_of(function as int) == older.function_of(function as int));
        },
        Obj::Class { name, methods } => {
            assert forall|m: int| 0 <= m < methods@.len() implies newer.is_str(
                #[trigger] methods@[m].0 as int,
            ) && newer.is_closure(methods@[m].1 as int) by {
                assert(older.is_str(methods@[m].0 as int));
                assert(older.is_closure(methods@[m].1 as int));
            }
        },
        Obj::Instance { class, fields } => {
            assert forall|m: int| 0 <= m < fields@.len() implies newer.is_str(
                #[trigger] fields@[m].0 as int,
            ) && newer.valid_value(fields@[m].1) by {
                assert(older.is_str(fields@[m].0 as int));
                assert(older.valid_value(fields@[m].1));
            }
        },
        _ => {},
    }
}

/// Two objects of the same variant.

/// The allocation account of one object, as allocation charged it.
pub open spec fn spec_obj_size(o: Obj) -> usize {
    match o {
        Obj::Str(cs) => if cs@.len() <= usize::MAX - 24 {
            (24 + cs@.len()) as usize
        } else {
            usize::MAX
        },
        Obj::Function(f) => if f.chunk.code@.len() <= usize::MAX - 96 {
            (96 + f.chunk.code@.len()) as usize
        } else {
            usize::MAX
        },
        Obj::Closure { .. } => 40,
        Obj::Upvalue(_) => 32,
        Obj::Class { .. } => 48,
        Obj::Instance { .. } => 48,
        Obj::BoundMethod { .. } => 40,
    }
}

/// The allocation account of one object, for the sweep to give back.
pub fn obj_size(o: &Obj) -> (r: usize)
    ensures
        r == spec_obj_size(*o),
{
    match o {
        Obj::Str(cs) => if cs.len() <= usize::MAX - 24 {
            24 + cs.len()
        } else {
            usize::MAX
        },
        Obj::Function(f) => if f.chunk.code.len() <= usize::MAX - 96 {
            96 + f.chunk.code.len()
        } else {
            usize::MAX
        },
        Obj::Closure { .. } => 40,
        Obj::Upvalue(_) => 32,
        Obj::Class { .. } => 48,
        Obj::Instance { .. } => 48,
        Obj::BoundMethod { .. } => 40,
    }
}

pub open spec fn same_kind(x: Obj, y: Obj) -> bool {
    &&& (x is Str <==> y is Str)
    &&& (x is Function <==> y is Function)
    &&& (x is Closure <==> y is Closure)
    &&& (x is Upvalue <==> y is Upvalue)
    &&& (x is Class <==> y is Class)
    &&& (x is Instance <==> y is Instance)
    &&& (x is BoundMethod <==> y is BoundMethod)
}

/// An object stays well-formed when one live slot is overwritten by an
/// object of the same variant, as long as no function changed: the only
/// content of another object a judgment reads is a function's upvalue count.
pub proof fn lemma_same_kinds_obj_wf(a: Heap, b: Heap, o: Obj)
    requires
        a.obj_wf(o),
        b.objects@.len() == a.objects@.len(),
        forall|j: int| b.live(j) == a.live(j),
        forall|j: int| a.live(j) ==> same_kind(#[trigger] b.obj_at(j), a.obj_at(j)),
        forall|j: int|
            a.live(j) && a.obj_at(j) is Function ==> #[trigger] b.obj_at(j) == a.obj_at(j),
    ensures
        b.obj_wf(o),
{
    match o {
        Obj::Function(f) => {
            assert forall|c: int| 0 <= c < f.chunk.constants@.len() implies b.valid_value(
                #[trigger] f.chunk.constants@[c],
            ) by {
                assert(a.valid_value(f.chunk.constants@[c]));
            }
            match f.name {
                Some(n) => {
                    assert(same_kind(b.obj_at(n as int), a.obj_at(n as int)));
                },
                None => {},
            }
        },
        Obj::Closure { function, upvalues } => {
            assert(a.is_function(function as int));
            assert(b.obj_at(function as int) == a.obj_at(function as int));
            assert forall|u: int| 0 <= u < upvalues@.len() implies b.is_upvalue(
                #[trigger] upvalues@[u] as int,
            ) by {
                assert(a.is_upvalue(upvalues@[u] as int));
                assert(same_kind(b.obj_at(upvalues@[u] as int), a.obj_at(upvalues@[u] as int)));
            }
        },
        Obj::Class { name, methods } => {
            assert(same_kind(b.obj_at(name as int), a.obj_at(name as int)));
            assert forall|m: int| 0 <= m < methods@.len() implies b.is_str(
                #[trigger] methods@[m].0 as int,
            ) && b.is_closure(methods@[m].1 as int) by {
                assert(a.is_str(methods@[m].0 as int));
                assert(a.is_closure(methods@[m].1 as int));
                assert(same_kind(b.obj_at(methods@[m].0 as int), a.obj_at(methods@[m].0 as int)));
                assert(same_kind(b.obj_at(methods@[m].1 as int), a.obj_at(methods@[m].1 as int)));
            }
        },
        Obj::Instance { class, fields } => {
            assert(same_kind(b.obj_at(class as int), a.obj_at(class as int)));
            assert forall|m: int| 0 <= m < fields@.len() implies b.is_str(
                #[trigger] fields@[m].0 as int,
            ) && b.valid_value(fields@[m].1) by {
                assert(a.is_str(fields@[m].0 as int));
                assert(a.valid_value(fields@[m].1));
                assert(same_kind(b.obj_at(fields@[m].0 as int), a.obj_at(fields@[m].0 as int)));
            }
        },
        Obj::BoundMethod { receiver, method } => {
            assert(a.is_closure(method as int));
            assert(same_kind(b.obj_at(method as int), a.obj_at(method as int)));
        },
        Obj::Upvalue(st) => {},
        Obj::Str(_) => {},
    }
}

/// The heap stays well-formed when one live slot is overwritten in place by
/// a well-formed object of the same variant, strings and functions excluded
/// (strings are immutable and interned; functions are immutable once built).
pub proof fn lemma_update_same_kind_wf(a: Heap, b: Heap, i: int, o2: Obj)
    requires
        a.wf(),
        a.live(i),
        !(a.obj_at(i) is Function),
        !(a.obj_at(i) is Str),
        same_kind(o2, a.obj_at(i)),
        b.objects@ == a.objects@.update(i, Some(o2)),
        b.marks == a.marks,
        b.strings == a.strings,
        b.globals == a.globals,
        b.obj_wf(o2),
    ensures
        b.wf(),
{
    assert forall|j: int| b.live(j) == a.live(j) by {}
    assert forall|j: int| a.live(j) implies same_kind(#[trigger] b.obj_at(j), a.obj_at(j)) by {
        if j != i {
            assert(b.obj_at(j) == a.obj_at(j));
            lemma_same_kind_refl(a.obj_at(j));
        }
    }
    assert forall|j: int| b.live(j) implies b.obj_wf(#[trigger] b.obj_at(j)) by {
        if j == i {
        } else {
            assert(a.obj_wf(a.obj_at(j)));
            lemma_same_kinds_obj_wf(a, b, a.obj_at(j));
        }
    }
    assert forall|k: int| 0 <= k < b.strings@.len() implies b.is_str(
        #[trigger] b.strings@[k] as int,
    ) by {
        assert(a.is_str(a.strings@[k] as int));
    }
    assert forall|k1: int, k2: int|
        0 <= k1 < b.strings@.len() && 0 <= k2 < b.strings@.len() && k1 != k2 implies b.str_chars(
        #[trigger] b.strings@[k1] as int,
    ) != b.str_chars(#[trigger] b.strings@[k2] as int) by {
        assert(a.str_chars(a.strings@[k1] as int) != a.str_chars(a.strings@[k2] as int));
        assert(a.strings@[k1] != i && a.strings@[k2] != i);
    }
    assert forall|j: int| #[trigger] b.is_str(j) implies b.in_intern_table(j) by {
        assert(a.is_str(j));
        let k0 = choose|k0: int| 0 <= k0 < a.strings@.len() && a.strings@[k0] == j;
        assert(b.strings@[k0] == j);
    }
    assert forall|g: int| 0 <= g < b.globals@.len() implies b.is_str(
        #[trigger] b.globals@[g].0 as int,
    ) && b.valid_value(b.globals@[g].1) by {
        assert(a.is_str(b.globals@[g].0 as int));
        assert(a.valid_value(b.globals@[g].1));
    }
}

/// Every object is of its own variant.
pub proof fn lemma_same_kind_refl(o: Obj)
    ensures
        same_kind(o, o),
{
}

impl Heap {
    /// The field of an instance, if it was ever written.
    pub fn get_field(&self, inst: usize, name: usize) -> (r: Option<Value>)
        requires
            self.wf(),
            self.is_instance(inst as int),
        ensures
            r == assoc_value(self.instance_fields(inst as int), name),
            r matches Some(v) ==> self.valid_value(v),
    {
        match &self.objects[inst] {
            Some(Obj::Instance { class: _, fields }) => {
                let n = fields.len();
                let mut k: usize = 0;
                while k < n
                    invariant
                        self.wf(),
                        self.is_instance(inst as int),
                        fields@ == self.instance_fields(inst as int),
                        n == fields@.len(),
                        k <= n,
                        forall|j: int| 0 <= j < k ==> (#[trigger] fields@[j].0) != name,
                    decreases n - k,
                {
                    let (key, v) = fields[k];
                    if key == name {
                        proof {
                            assert(self.obj_wf(self.obj_at(inst as int)));
                            lemma_assoc_found(fields@, k as int, name);
                        }
                        return Some(v);
                    }
                    k = k + 1;
                }
                proof {
                    lemma_assoc_missing(fields@, name);
                }
                None
            },
            _ => {
                proof {
                    assert(false);
                }
                None
            },
        }
    }

    /// The method of a class, if it has one of that name.
    pub fn get_method(&self, class: usize, name: usize) -> (r: Option<usize>)
        requires
            self.wf(),
            self.is_class(class as int),
        ensures
            r == assoc_value(self.class_methods(class as int), name),
            r matches Some(m) ==> self.is_closure(m as int),
    {
        match &self.objects[class] {
            Some(Obj::Class { name: _, methods }) => {
                let n = methods.len();
                let mut k: usize = 0;
                while k < n
                    invariant
                        self.wf(),
                        self.is_class(class as int),
                        methods@ == self.class_methods(class as int),
                        n == methods@.len(),
                        k <= n,
                        forall|j: int| 0 <= j < k ==> (#[trigger] methods@[j].0) != name,
                    decreases n - k,
                {
                    let (key, m) = methods[k];
                    if key == name {
                        proof {
                            assert(self.obj_wf(self.obj_at(class as int)));
                            lemma_assoc_found(methods@, k as int, name);
                        }
                        return Some(m);
                    }
                    k = k + 1;
                }
                proof {
                    lemma_assoc_missing(methods@, name);
                }
                None
            },
            _ => {
                proof {
                    assert(false);
                }
                None
            },
        }
    }

    /// Writes a field of an instance, overwriting an earlier value.
    pub fn set_field(&mut self, inst: usize, name: usize, v: Value)
        requires
            old(self).wf(),
            old(self).is_instance(inst as int),
            old(self).is_str(name as int),
            old(self).valid_value(v),
        ensures
            final(self).wf(),
            final(self).objects@.len() == old(self).objects@.len(),
            final(self).marks == old(self).marks,
            final(self).strings == old(self).strings,
            final(self).globals == old(self).globals,
            forall|j: int|
                0 <= j < final(self).objects@.len() && j != inst
                    ==> #[trigger] final(self).objects@[j] == old(self).objects@[j],
            final(self).is_instance(inst as int),
            final(self).instance_class(inst as int) == old(self).instance_class(inst as int),
            assoc_value(final(self).instance_fields(inst as int), name) == Some(v),
            forall|m: usize|
                m != name ==> #[trigger] assoc_value(final(self).instance_fields(inst as int), m)
                    == assoc_value(old(self).instance_fields(inst as int), m),
    {
        let ghost pre = *self;
        let slot = &mut self.objects[inst];
        match slot {
            Some(Obj::Instance { class: _, fields }) => {
                proof {
                    assert(pre.obj_wf(pre.obj_at(inst as int)));
                }
                assoc_set(fields, name, v);
            },
            _ => {
                proof {
                    assert(false);
                }
            },
        }
        proof {
            let o2 = self.obj_at(inst as int);
            assert(self.objects@ =~= pre.objects@.update(inst as int, Some(o2)));
            assert forall|m: int| 0 <= m < self.instance_fields(inst as int).len() implies pre.is_str(
                (#[trigger] self.instance_fields(inst as int)[m]).0 as int,
            ) && pre.valid_value(self.instance_fields(inst as int)[m].1) by {
                let e = self.instance_fields(inst as int)[m];
                if e == (name, v) {
                } else {
                    assert(pre.obj_wf(pre.obj_at(inst as int)));
                }
            }
            lemma_same_kinds_obj_wf_pre_to_self(pre, *self, o2, inst as int);
            lemma_update_same_kind_wf(pre, *self, inst as int, o2);
        }
    }

    /// Adds or replaces a method of a class.
    pub fn add_method(&mut self, class: usize, name: usize, method: usize)
        requires
            old(self).wf(),
            old(self).is_class(class as int),
            old(self).is_str(name as int),
            old(self).is_closure(method as int),
        ensures
            final(self).wf(),
            final(self).objects@.len() == old(self).objects@.len(),
            final(self).marks == old(self).marks,
            final(self).strings == old(self).strings,
            final(self).globals == old(self).globals,
            forall|j: int|
                0 <= j < final(self).objects@.len() && j != class
                    ==> #[trigger] final(self).objects@[j] == old(self).objects@[j],
            final(self).is_class(class as int),
            final(self).class_name(class as int) == old(self).class_name(class as int),
            assoc_value(final(self).class_methods(class as int), name) == Some(method),
            forall|m: usize|
                m != name ==> #[trigger] assoc_value(final(self).class_methods(class as int), m)
                    == assoc_value(old(self).class_methods(class as int), m),
    {
        let ghost pre = *self;
        let slot = &mut self.objects[class];
        match slot {
            Some(Obj::Class { name: _, methods }) => {
                proof {
                    assert(pre.obj_wf(pre.obj_at(class as int)));
                }
                assoc_set(methods, name, method);
            },
            _ => {
                proof {
                    assert(false);
                }
            },
        }
        proof {
            let o2 = self.obj_at(class as int);
            assert(self.objects@ =~= pre.objects@.update(class as int, Some(o2)));
            assert forall|m: int| 0 <= m < self.class_methods(class as int).len() implies pre.is_str(
                (#[trigger] self.class_methods(class as int)[m]).0 as int,
            ) && pre.is_closure(self.class_methods(class as int)[m].1 as int) by {
                let e = self.class_methods(class as int)[m];
                if e == (name, method) {
                } else {
                    assert(pre.obj_wf(pre.obj_at(class as int)));
                }
            }
            lemma_same_kinds_obj_wf_pre_to_self(pre, *self, o2, class as int);
            lemma_update_same_kind_wf(pre, *self, class as int, o2);
        }
    }

    /// Rewrites the state of an upvalue: open at a stack slot, or closed
    /// over a value.
    pub fn set_upvalue(&mut self, uv: usize, st: UpvalueState)
        requires
            old(self).wf(),
            old(self).is_upvalue(uv as int),
            st matches UpvalueState::Closed(v) ==> old(self).valid_value(v),
        ensures
            final(self).wf(),
            final(self).objects@.len() == old(self).objects@.len(),
            final(self).marks == old(self).marks,
            final(self).strings == old(self).strings,
            final(self).globals == old(self).globals,
            forall|j: int|
                0 <= j < final(self).objects@.len() && j != uv
                    ==> #[trigger] final(self).objects@[j] == old(self).objects@[j],
            final(self).is_upvalue(uv as int),
            final(self).upvalue_state(uv as int) == st,
    {
        let ghost pre = *self;
        self.objects[uv] = Some(Obj::Upvalue(st));
        proof {
            let o2 = Obj::Upvalue(st);
            assert(self.objects@ =~= pre.objects@.update(uv as int, Some(o2)));
            lemma_same_kinds_obj_wf_pre_to_self(pre, *self, o2, uv as int);
            lemma_update_same_kind_wf(pre, *self, uv as int, o2);
        }
    }
}

/// Bridges a single-slot update to the premises of the same-kind lemma: the
/// replacement object, valid against the old heap, is valid against the new.
proof fn lemma_same_kinds_obj_wf_pre_to_self(pre: Heap, cur: Heap, o2: Obj, i: int)
    requires
        pre.wf(),
        pre.live(i),
        !(pre.obj_at(i) is Function),
        cur.objects@ == pre.objects@.update(i, Some(o2)),
        same_kind(o2, pre.obj_at(i)),
        pre.obj_wf(o2),
    ensures
        cur.obj_wf(o2),
{
    assert forall|j: int| pre.live(j) implies same_kind(#[trigger] cur.obj_at(j), pre.obj_at(j)) by {
        if j != i {
            assert(cur.obj_at(j) == pre.obj_at(j));
            lemma_same_kind_refl(pre.obj_at(j));
        }
    }
    lemma_same_kinds_obj_wf(pre, cur, o2);
}

/// The heap's invariant does not depend on the mark bits beyond their
/// number: collector marking never breaks it.
pub proof fn lemma_wf_same_objects(a: Heap, b: Heap)
    requires
        a.wf(),
        b.objects == a.objects,
        b.strings == a.strings,
        b.globals == a.globals,
        b.marks@.len() == a.marks@.len(),
    ensures
        b.wf(),
{
    assert(b.extends(a));
    assert forall|i: int| b.live(i) implies b.obj_wf(#[trigger] b.obj_at(i)) by {
        assert(a.obj_wf(a.obj_at(i)));
        lemma_extends_obj_wf(a, b, b.obj_at(i));
    }
    assert forall|k: int| 0 <= k < b.strings@.len() implies b.is_str(
        #[trigger] b.strings@[k] as int,
    ) by {
        assert(a.is_str(a.strings@[k] as int));
    }
    assert forall|i: int| #[trigger] b.is_str(i) implies b.in_intern_table(i) by {
        assert(a.is_str(i));
        let k0 = choose|k0: int| 0 <= k0 < a.strings@.len() && a.strings@[k0] == i;
        assert(b.strings@[k0] == i);
    }
    assert forall|k1: int, k2: int|
        0 <= k1 < b.strings@.len() && 0 <= k2 < b.strings@.len() && k1 != k2 implies b.str_chars(
        #[trigger] b.strings@[k1] as int,
    ) != b.str_chars(#[trigger] b.strings@[k2] as int) by {
        assert(a.str_chars(a.strings@[k1] as int) != a.str_chars(a.strings@[k2] as int));
    }
    assert forall|g: int| 0 <= g < b.globals@.len() implies b.is_str(
        #[trigger] b.globals@[g].0 as int,
    ) && b.valid_value(b.globals@[g].1) by {
        assert(a.is_str(b.globals@[g].0 as int));
        assert(a.valid_value(b.globals@[g].1));
    }
}

/// Interning is canonical: two live strings with the same content are the
/// same object, so string equality by identity agrees with equality by
/// content.
pub proof fn lemma_intern_unique(h: Heap, i: int, j: int)
    requires
        h.wf(),
        h.is_str(i),
        h.is_str(j),
        h.str_chars(i) == h.str_chars(j),
    ensures
        i == j,
{
    let ki = choose|k: int| 0 <= k < h.strings@.len() && h.strings@[k] == i;
    let kj = choose|k: int| 0 <= k < h.strings@.len() && h.strings@[k] == j;
    if ki != kj {
        assert(h.str_chars(h.strings@[ki] as int) != h.str_chars(h.strings@[kj] as int));
    }
}

/// What one object references directly.
pub open spec fn obj_points_to(o: Obj, j: int) -> bool {
    match o {
        Obj::Str(_) => false,
        Obj::Function(f) => {
            ||| (f.name matches Some(n) && n == j)
            ||| exists|c: int|
                0 <= c < f.chunk.constants@.len() && ((#[trigger] f.chunk.constants@[c]) matches
                Value::Object(x) && x == j)
        },
        Obj::Closure { function, upvalues } => {
            ||| function == j
            ||| exists|u: int| 0 <= u < upvalues@.len() && #[trigger] upvalues@[u] == j
        },
        Obj::Upvalue(st) => st matches UpvalueState::Closed(v) && (v matches Value::Object(x) && x
            == j),
        Obj::Class { name, methods } => {
            ||| name == j
            ||| exists|m: int|
                0 <= m < methods@.len() && ((#[trigger] methods@[m]).0 == j || methods@[m].1 == j)
        },
        Obj::Instance { class, fields } => {
            ||| class == j
            ||| exists|m: int|
                0 <= m < fields@.len() && ((#[trigger] fields@[m]).0 == j || (fields@[m].1 matches
                Value::Object(x) && x == j))
        },
        Obj::BoundMethod { receiver, method } => {
            ||| method == j
            ||| (receiver matches Value::Object(x) && x == j)
        },
    }
}

/// In a well-formed heap, whatever a live object references is live.
pub proof fn lemma_live_refs_live(h: Heap, i: int, j: int)
    requires
        h.wf(),
        h.live(i),
        obj_points_to(h.obj_at(i), j),
    ensures
        h.live(j),
{
    assert(h.obj_wf(h.obj_at(i)));
    match h.obj_at(i) {
        Obj::Function(f) => {
            if !(f.name matches Some(n) && n == j) {
                let c = choose|c: int|
                    0 <= c < f.chunk.constants@.len() && ((#[trigger] f.chunk.constants@[c])
                        matches Value::Object(x) && x == j);
                assert(h.valid_value(f.chunk.constants@[c]));
            }
        },
        Obj::Closure { function, upvalues } => {
            if function != j {
                let u = choose|u: int| 0 <= u < upvalues@.len() && #[trigger] upvalues@[u] == j;
                assert(h.is_upvalue(upvalues@[u] as int));
            }
        },
        Obj::Upvalue(st) => {
            match st {
                UpvalueState::Closed(v) => {
                    assert(h.valid_value(v));
                },
                _ => {},
            }
        },
        Obj::Class { name, methods } => {
            if name != j {
                let m = choose|m: int|
                    0 <= m < methods@.len() && ((#[trigger] methods@[m]).0 == j || methods@[m].1
                        == j);
                assert(h.is_str(methods@[m].0 as int));
                assert(h.is_closure(methods@[m].1 as int));
            }
        },
        Obj::Instance { class, fields } => {
            if class != j {
                let m = choose|m: int|
                    0 <= m < fields@.len() && ((#[trigger] fields@[m]).0 == j || (fields@[m].1
                        matches Value::Object(x) && x == j));
                assert(h.is_str(fields@[m].0 as int));
                assert(h.valid_value(fields@[m].1));
            }
        },
        Obj::BoundMethod { receiver, method } => {
            if method != j {
                assert(h.valid_value(receiver));
            }
        },
        Obj::Str(_) => {},
    }
}

/// In a well-formed heap — in particular right after a collection — every
/// object reachable by a chain of references from a live root is live: no
/// reachable value dangles.
pub proof fn lemma_reachable_live(h: Heap, path: Seq<int>)
    requires
        h.wf(),
        path.len() >= 1,
        h.live(path[0]),
        forall|k: int|
            0 <= k < path.len() - 1 ==> obj_points_to(h.obj_at(#[trigger] path[k]), path[k + 1]),
    ensures
        forall|k: int| 0 <= k < path.len() ==> h.live(#[trigger] path[k]),
    decreases path.len(),
{
    if path.len() > 1 {
        lemma_live_refs_live(h, path[0], path[1]);
        let rest = path.drop_first();
        assert forall|k: int|
            0 <= k < rest.len() - 1 implies obj_points_to(
            h.obj_at(#[trigger] rest[k]),
            rest[k + 1],
        ) by {
            assert(rest[k] == path[k + 1] && rest[k + 1] == path[k + 2]);
            assert(obj_points_to(h.obj_at(path[k + 1]), path[k + 2]));
        }
        lemma_reachable_live(h, rest);
        assert forall|k: int| 0 <= k < path.len() implies h.live(#[trigger] path[k]) by {
            if k >= 1 {
                assert(h.live(rest[k - 1]));
            }
        }
    }
}

} // verus!
