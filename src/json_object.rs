use vstd::prelude::*;

verus! {

/// The kind of a JSON value.
#[derive(Debug, Clone, Copy, PartialEq, Eq, Structural)]
pub enum ValueType {
    StringType,
    NumberType,
    BooleanType,
    NullType,
    ObjectType,
    ArrayType,
}

/// Optional owning link to a node: the head of a child chain, or the rest of a sibling chain.
pub type JsonKeyPtr = Option<Box<Key>>;

/// One member of an object, or one element of an array.
///
/// A node owns the chain of its children (`ptr`, with `n` counting them) and the rest of
/// its own sibling chain (`next`). `prev` is never followed by the library.
#[derive(Debug)]
pub struct Key {
    name: String,
    value_type: ValueType,
    value: String,
    ptr: JsonKeyPtr,
    n: usize,
    next: Option<Box<Key>>,
    prev: Option<Box<Key>>,
}

/// What a walk over a tree reports of one node: its depth below the chain the walk
/// started from, its name, kind, literal value and child count.
pub ghost struct NodeView {
    pub depth: nat,
    pub name: Seq<char>,
    pub kind: ValueType,
    pub value: Seq<char>,
    pub n: nat,
}

/// Adds `d` to the depth of every entry.
pub open spec fn shift(s: Seq<NodeView>, d: nat) -> Seq<NodeView> {
    s.map_values(|v: NodeView| NodeView { depth: v.depth + d, ..v })
}

/// Number of nodes in the sibling chain that starts at `p`.
pub closed spec fn chain_len(p: JsonKeyPtr) -> nat
    decreases p,
{
    match p {
        None => 0,
        Some(b) => 1 + chain_len(b.next),
    }
}

/// Every node reachable from `p` counts exactly the nodes of its child chain.
pub closed spec fn chain_wf(p: JsonKeyPtr) -> bool
    decreases p,
{
    match p {
        None => true,
        Some(b) => b.n == chain_len(b.ptr) && chain_wf(b.ptr) && chain_wf(b.next),
    }
}

/// The nodes of the sibling chain that starts at `p`, in order, each with its sibling
/// link cut off (children are kept).
pub closed spec fn siblings(p: JsonKeyPtr) -> Seq<Key>
    decreases p,
{
    match p {
        None => Seq::empty(),
        Some(b) => seq![Key { next: None, ..*b }] + siblings(b.next),
    }
}

/// Depth-first pre-order listing of the chain that starts at `p` and of everything below
/// it: a node, then (when its child count is positive) its children one level deeper,
/// then its next sibling.
pub closed spec fn preorder(p: JsonKeyPtr) -> Seq<NodeView>
    decreases p,
{
    match p {
        None => Seq::empty(),
        Some(b) => seq![b.visit(0)] + (if b.n > 0 {
            shift(preorder(b.ptr), 1)
        } else {
            Seq::empty()
        }) + preorder(b.next),
    }
}

/// Shifting by zero changes nothing.
pub proof fn lemma_shift_zero(s: Seq<NodeView>)
    ensures
        shift(s, 0) == s,
{
    assert(shift(s, 0) =~= s);
}

/// Two shifts add up.
pub proof fn lemma_shift_shift(s: Seq<NodeView>, a: nat, b: nat)
    ensures
        shift(shift(s, a), b) == shift(s, a + b),
{
    assert(shift(shift(s, a), b) =~= shift(s, a + b));
}

/// Shifting distributes over concatenation.
pub proof fn lemma_shift_concat(s: Seq<NodeView>, t: Seq<NodeView>, d: nat)
    ensures
        shift(s + t, d) == shift(s, d) + shift(t, d),
{
    assert(shift(s + t, d) =~= shift(s, d) + shift(t, d));
}

/// A node without siblings is a chain of one, valid exactly when the node is.
pub proof fn lemma_single(key: Box<Key>)
    requires
        key.spec_next() is None,
    ensures
        chain_len(Some(key)) == 1,
        chain_wf(Some(key)) == key.wf(),
{
    assert(chain_len(Some(key)) == 1 + chain_len(None));
    assert(chain_wf(None));
}

/// A chain lists as many siblings as it has nodes.
pub proof fn lemma_siblings_len(p: JsonKeyPtr)
    ensures
        siblings(p).len() == chain_len(p),
    decreases p,
{
    if let Some(b) = p {
        lemma_siblings_len(b.next);
    }
}

/// The length and validity of a chain, unfolded once over the accessors: a chain is valid
/// when its first node counts its own child chain exactly, every node below that one is
/// valid too, and so is the rest of the chain.
pub proof fn lemma_chain_unfold(p: JsonKeyPtr)
    ensures
        chain_len(p) == (match p {
            None => 0,
            Some(b) => 1 + chain_len(b.spec_next()),
        }),
        chain_wf(p) == (match p {
            None => true,
            Some(b) => b.wf() && chain_wf(b.spec_next()),
        }),
{
}

/// `preorder` unfolded once.
pub proof fn lemma_preorder_unfold(p: JsonKeyPtr)
    ensures
        preorder(p) == (match p {
            None => Seq::empty(),
            Some(b) => seq![b.visit(0)] + (if b.spec_n() > 0 {
                shift(preorder(b.spec_ptr()), 1)
            } else {
                Seq::empty()
            }) + preorder(b.spec_next()),
        }),
{
}

impl Key {
    /// The member name (empty for an array element).
    pub closed spec fn spec_name(&self) -> Seq<char> {
        self.name@
    }

    /// The kind of the value.
    pub closed spec fn spec_kind(&self) -> ValueType {
        self.value_type
    }

    /// The literal text of a scalar value (empty for an object or array).
    pub closed spec fn spec_value(&self) -> Seq<char> {
        self.value@
    }

    /// The head of the child chain.
    pub closed spec fn spec_ptr(&self) -> JsonKeyPtr {
        self.ptr
    }

    /// The child count.
    pub closed spec fn spec_n(&self) -> nat {
        self.n as nat
    }

    /// The rest of the sibling chain.
    pub closed spec fn spec_next(&self) -> Option<Box<Key>> {
        self.next
    }

    /// The back link, which the library keeps but never follows.
    pub closed spec fn spec_prev(&self) -> Option<Box<Key>> {
        self.prev
    }

    /// The node as a walk reports it at depth `depth`.
    pub open spec fn visit(&self, depth: nat) -> NodeView {
        NodeView {
            depth,
            name: self.spec_name(),
            kind: self.spec_kind(),
            value: self.spec_value(),
            n: self.spec_n(),
        }
    }

    /// The child count equals the length of the child chain, here and in every node below.
    pub open spec fn wf(&self) -> bool {
        &&& self.spec_n() == chain_len(self.spec_ptr())
        &&& chain_wf(self.spec_ptr())
    }

    /// Everything but the child chain and its count is as in `other`.
    pub open spec fn same_fields(&self, other: &Key) -> bool {
        &&& self.spec_name() == other.spec_name()
        &&& self.spec_kind() == other.spec_kind()
        &&& self.spec_value() == other.spec_value()
        &&& self.spec_next() == other.spec_next()
        &&& self.spec_prev() == other.spec_prev()
    }

    /// A node with no children and no siblings.
    pub fn new(name: String, value_type: ValueType, value: String) -> (r: Self)
        ensures
            r.spec_name() == name@,
            r.spec_kind() == value_type,
            r.spec_value() == value@,
            r.spec_ptr() is None,
            r.spec_n() == 0,
            r.spec_next() is None,
            r.spec_prev() is None,
            r.wf(),
    {
        Key { name, value_type, value, ptr: None, n: 0, next: None, prev: None }
    }

    pub fn get_ptr(&self) -> (r: &JsonKeyPtr)
        ensures
            *r == self.spec_ptr(),
    {
        &self.ptr
    }

    pub fn get_n(&self) -> (r: usize)
        ensures
            r == self.spec_n(),
    {
        self.n
    }

    pub fn get_name(&self) -> (r: &str)
        ensures
            r@ == self.spec_name(),
    {
        self.name.as_str()
    }

    pub fn get_value_type(&self) -> (r: &ValueType)
        ensures
            *r == self.spec_kind(),
    {
        &self.value_type
    }

    pub fn get_value(&self) -> (r: &str)
        ensures
            r@ == self.spec_value(),
    {
        self.value.as_str()
    }

    pub fn get_next(&self) -> (r: Option<&Box<Key>>)
        ensures
            r is Some <==> self.spec_next() is Some,
            r is Some ==> *r->0 == self.spec_next()->0,
    {
        self.next.as_ref()
    }

    pub fn get_prev(&self) -> (r: Option<&Box<Key>>)
        ensures
            r is Some <==> self.spec_prev() is Some,
            r is Some ==> *r->0 == self.spec_prev()->0,
    {
        self.prev.as_ref()
    }

    pub fn set_next(&mut self, next: Option<Box<Key>>)
        ensures
            final(self).spec_next() == next,
            final(self).spec_name() == old(self).spec_name(),
            final(self).spec_kind() == old(self).spec_kind(),
            final(self).spec_value() == old(self).spec_value(),
            final(self).spec_prev() == old(self).spec_prev(),
            final(self).spec_ptr() == old(self).spec_ptr(),
            final(self).spec_n() == old(self).spec_n(),
    {
        self.next = next;
    }

    pub fn set_prev(&mut self, prev: Option<Box<Key>>)
        ensures
            final(self).spec_prev() == prev,
            final(self).spec_name() == old(self).spec_name(),
            final(self).spec_kind() == old(self).spec_kind(),
            final(self).spec_value() == old(self).spec_value(),
            final(self).spec_next() == old(self).spec_next(),
            final(self).spec_ptr() == old(self).spec_ptr(),
            final(self).spec_n() == old(self).spec_n(),
    {
        self.prev = prev;
    }

    pub fn set_name(&mut self, name: String)
        ensures
            final(self).spec_name() == name@,
            final(self).spec_kind() == old(self).spec_kind(),
            final(self).spec_value() == old(self).spec_value(),
            final(self).spec_next() == old(self).spec_next(),
            final(self).spec_prev() == old(self).spec_prev(),
            final(self).spec_ptr() == old(self).spec_ptr(),
            final(self).spec_n() == old(self).spec_n(),
    {
        self.name = name;
    }

    pub fn set_value_type(&mut self, value_type: ValueType)
        ensures
            final(self).spec_kind() == value_type,
            final(self).spec_name() == old(self).spec_name(),
            final(self).spec_value() == old(self).spec_value(),
            final(self).spec_next() == old(self).spec_next(),
            final(self).spec_prev() == old(self).spec_prev(),
            final(self).spec_ptr() == old(self).spec_ptr(),
            final(self).spec_n() == old(self).spec_n(),
    {
        self.value_type = value_type;
    }

    pub fn set_value(&mut self, value: String)
        ensures
            final(self).spec_value() == value@,
            final(self).spec_name() == old(self).spec_name(),
            final(self).spec_kind() == old(self).spec_kind(),
            final(self).spec_next() == old(self).spec_next(),
            final(self).spec_prev() == old(self).spec_prev(),
            final(self).spec_ptr() == old(self).spec_ptr(),
            final(self).spec_n() == old(self).spec_n(),
    {
        self.value = value;
    }

    /// Appends `key` (with whatever siblings it already owns) at the tail of this node's
    /// child chain. The count becomes 1 on an empty chain, and grows by one otherwise.
    pub fn add_key(&mut self, key: Box<Key>)
        requires
            old(self).spec_ptr() is Some ==> old(self).spec_n() < usize::MAX,
        ensures
            final(self).same_fields(old(self)),
            final(self).spec_n() == (if old(self).spec_ptr() is None {
                1
            } else {
                old(self).spec_n() + 1
            }),
            siblings(final(self).spec_ptr()) == siblings(old(self).spec_ptr()) + siblings(
                Some(key),
            ),
            preorder(final(self).spec_ptr()) == preorder(old(self).spec_ptr()) + preorder(
                Some(key),
            ),
            old(self).wf() && key.wf() && key.spec_next() is None ==> final(self).wf(),
            old(self).spec_n() == chain_len(old(self).spec_ptr()) && key.spec_next() is None
                ==> final(self).spec_n() == chain_len(final(self).spec_ptr()),
    {
        if self.ptr.is_none() {
            self.ptr = Some(key);
            self.n = 1;
            proof {
                assert(siblings(None) + siblings(Some(key)) =~= siblings(Some(key)));
                assert(preorder(None) + preorder(Some(key)) =~= preorder(Some(key)));
            }
        } else {
            append_to_chain(&mut self.ptr, key);
            self.n = self.n + 1;
        }
        proof {
            if key.spec_next() is None {
                lemma_single(key);
            }
        }
    }
}

/// A copy of the chain `p`, with everything it owns.
fn copy_link(p: &JsonKeyPtr) -> (r: JsonKeyPtr)
    ensures
        r == *p,
    decreases *p,
{
    match p {
        None => None,
        Some(b) => Some(Box::new(copy_node(b))),
    }
}

/// A copy of `k`, with everything it owns.
fn copy_node(k: &Key) -> (r: Key)
    ensures
        r == *k,
    decreases *k,
{
    Key {
        name: k.name.clone(),
        value_type: k.value_type,
        value: k.value.clone(),
        ptr: copy_link(&k.ptr),
        n: k.n,
        next: copy_link(&k.next),
        prev: copy_link(&k.prev),
    }
}

impl Clone for Key {
    /// A deep copy: children, siblings and the back link are copied too.
    fn clone(&self) -> (r: Self)
        ensures
            r == *self,
    {
        copy_node(self)
    }
}

/// Links `key` after the last node of the chain `p`.
fn append_to_chain(p: &mut JsonKeyPtr, key: Box<Key>)
    ensures
        siblings(*final(p)) == siblings(*old(p)) + siblings(Some(key)),
        preorder(*final(p)) == preorder(*old(p)) + preorder(Some(key)),
        chain_len(*final(p)) == chain_len(*old(p)) + chain_len(Some(key)),
        chain_wf(*old(p)) && chain_wf(Some(key)) ==> chain_wf(*final(p)),
    decreases *old(p),
{
    match p.take() {
        None => {
            *p = Some(key);
            assert(siblings(None) + siblings(Some(key)) =~= siblings(Some(key)));
            assert(preorder(None) + preorder(Some(key)) =~= preorder(Some(key)));
        },
        Some(mut b) => {
            let ghost b0 = *b;
            append_to_chain(&mut b.next, key);
            *p = Some(b);
            assert(Key { next: None, ..*b } == Key { next: None, ..b0 });
            assert(siblings(*p) =~= siblings(Some(Box::new(b0))) + siblings(Some(key)));
            assert(preorder(*p) =~= preorder(Some(Box::new(b0))) + preorder(Some(key)));
        },
    }
}

/// A document: the ordered chain of its top-level members, their count, and whether the
/// document is an object or an array.
#[derive(Debug)]
pub struct JsonObject {
    ptr: JsonKeyPtr,
    n: usize,
    value_type: ValueType,
}

impl Clone for JsonObject {
    /// A deep copy of the document.
    fn clone(&self) -> (r: Self)
        ensures
            r == *self,
    {
        JsonObject { ptr: copy_link(&self.ptr), n: self.n, value_type: self.value_type }
    }
}

impl JsonObject {
    /// The head of the chain of top-level members.
    pub closed spec fn spec_ptr(&self) -> JsonKeyPtr {
        self.ptr
    }

    /// The number of top-level members.
    pub closed spec fn spec_n(&self) -> nat {
        self.n as nat
    }

    /// Whether the document is an object or an array.
    pub closed spec fn spec_kind(&self) -> ValueType {
        self.value_type
    }

    /// The count equals the length of the top-level chain, and every node below is valid.
    pub open spec fn wf(&self) -> bool {
        &&& self.spec_n() == chain_len(self.spec_ptr())
        &&& chain_wf(self.spec_ptr())
    }

    /// Every node of the document, in depth-first pre-order, top-level members at depth 0.
    pub open spec fn nodes(&self) -> Seq<NodeView> {
        preorder(self.spec_ptr())
    }

    /// An empty object document.
    pub fn new() -> (r: Self)
        ensures
            r.spec_ptr() is None,
            r.spec_n() == 0,
            r.spec_kind() == ValueType::ObjectType,
            r.wf(),
    {
        JsonObject { ptr: None, n: 0, value_type: ValueType::ObjectType }
    }

    /// A document whose members are the children of `root`, tagged with `root`'s kind.
    pub(crate) fn from_root(root: Key) -> (r: Self)
        ensures
            r.spec_ptr() == root.spec_ptr(),
            r.spec_n() == root.spec_n(),
            r.spec_kind() == root.spec_kind(),
    {
        JsonObject { ptr: root.ptr, n: root.n, value_type: root.value_type }
    }

    pub fn set_ptr(&mut self, ptr: JsonKeyPtr)
        ensures
            final(self).spec_ptr() == ptr,
            final(self).spec_n() == old(self).spec_n(),
            final(self).spec_kind() == old(self).spec_kind(),
    {
        self.ptr = ptr;
    }

    pub fn get_ptr(&self) -> (r: &JsonKeyPtr)
        ensures
            *r == self.spec_ptr(),
    {
        &self.ptr
    }

    pub fn get_n(&self) -> (r: usize)
        ensures
            r == self.spec_n(),
    {
        self.n
    }

    pub fn set_n(&mut self, n: usize)
        ensures
            final(self).spec_n() == n,
            final(self).spec_ptr() == old(self).spec_ptr(),
            final(self).spec_kind() == old(self).spec_kind(),
    {
        self.n = n;
    }

    /// Whether the document is an object or an array.
    pub fn get_value_type(&self) -> (r: &ValueType)
        ensures
            *r == self.spec_kind(),
    {
        &self.value_type
    }

    /// Appends `key` (with whatever siblings it already owns) at the tail of the top-level
    /// chain. The count becomes 1 on an empty chain, and grows by one otherwise.
    pub fn add_key(&mut self, key: Box<Key>)
        requires
            old(self).spec_ptr() is Some ==> old(self).spec_n() < usize::MAX,
        ensures
            final(self).spec_kind() == old(self).spec_kind(),
            final(self).spec_n() == (if old(self).spec_ptr() is None {
                1
            } else {
                old(self).spec_n() + 1
            }),
            siblings(final(self).spec_ptr()) == siblings(old(self).spec_ptr()) + siblings(
                Some(key),
            ),
            final(self).nodes() == old(self).nodes() + preorder(Some(key)),
            old(self).wf() && key.wf() && key.spec_next() is None ==> final(self).wf(),
            old(self).spec_n() == chain_len(old(self).spec_ptr()) && key.spec_next() is None
                ==> final(self).spec_n() == chain_len(final(self).spec_ptr()),
    {
        if self.ptr.is_none() {
            self.ptr = Some(key);
            self.n = 1;
            proof {
                assert(siblings(None) + siblings(Some(key)) =~= siblings(Some(key)));
                assert(preorder(None) + preorder(Some(key)) =~= preorder(Some(key)));
            }
        } else {
            append_to_chain(&mut self.ptr, key);
            self.n = self.n + 1;
        }
        proof {
            if key.spec_next() is None {
                lemma_single(key);
            }
        }
    }

    /// Same as [`JsonObject::add_key`].
    pub fn add_key_new(&mut self, key: Box<Key>)
        requires
            old(self).spec_ptr() is Some ==> old(self).spec_n() < usize::MAX,
        ensures
            final(self).spec_kind() == old(self).spec_kind(),
            final(self).spec_n() == (if old(self).spec_ptr() is None {
                1
            } else {
                old(self).spec_n() + 1
            }),
            siblings(final(self).spec_ptr()) == siblings(old(self).spec_ptr()) + siblings(
                Some(key),
            ),
            final(self).nodes() == old(self).nodes() + preorder(Some(key)),
            old(self).wf() && key.wf() && key.spec_next() is None ==> final(self).wf(),
            old(self).spec_n() == chain_len(old(self).spec_ptr()) && key.spec_next() is None
                ==> final(self).spec_n() == chain_len(final(self).spec_ptr()),
    {
        self.add_key(key);
    }

    /// Same as [`JsonObject::add_key`].
    pub fn add_key_old(&mut self, key: Box<Key>)
        requires
            old(self).spec_ptr() is Some ==> old(self).spec_n() < usize::MAX,
        ensures
            final(self).spec_kind() == old(self).spec_kind(),
            final(self).spec_n() == (if old(self).spec_ptr() is None {
                1
            } else {
                old(self).spec_n() + 1
            }),
            siblings(final(self).spec_ptr()) == siblings(old(self).spec_ptr()) + siblings(
                Some(key),
            ),
            final(self).nodes() == old(self).nodes() + preorder(Some(key)),
            old(self).wf() && key.wf() && key.spec_next() is None ==> final(self).wf(),
            old(self).spec_n() == chain_len(old(self).spec_ptr()) && key.spec_next() is None
                ==> final(self).spec_n() == chain_len(final(self).spec_ptr()),
    {
        self.add_key(key);
    }
}

/// One node as a walk reports it: its depth, name, kind, literal value and child count.
#[derive(Debug, PartialEq, Eq)]
pub struct NodeVisit {
    pub depth: usize,
    pub name: String,
    pub kind: ValueType,
    pub value: String,
    pub n: usize,
}

impl View for NodeVisit {
    type V = NodeView;

    open spec fn view(&self) -> NodeView {
        NodeView {
            depth: self.depth as nat,
            name: self.name@,
            kind: self.kind,
            value: self.value@,
            n: self.n as nat,
        }
    }
}

/// The views of a sequence of visits.
pub open spec fn views(s: Seq<NodeVisit>) -> Seq<NodeView> {
    s.map_values(|v: NodeVisit| v@)
}

/// Appends to `out` the pre-order walk of the chain `p`, its top level at depth `depth`.
///
/// Every ancestor of a node is reported before it, so a depth never exceeds the number of
/// visits already made, and the next depth fits.
pub(crate) fn collect_preorder(p: &JsonKeyPtr, depth: usize, out: &mut Vec<NodeVisit>)
    requires
        depth <= old(out)@.len(),
    ensures
        views(final(out)@) == views(old(out)@) + shift(preorder(*p), depth as nat),
        final(out)@.len() >= old(out)@.len(),
    decreases *p,
{
    let ghost out0 = out@;
    match p {
        None => {
            assert(views(out@) =~= views(out0) + shift(preorder(*p), depth as nat));
        },
        Some(b) => {
            out.push(
                NodeVisit {
                    depth,
                    name: b.name.clone(),
                    kind: b.value_type,
                    value: b.value.clone(),
                    n: b.n,
                },
            );
            let ghost out1 = out@;
            assert(out1.len() == out.len());
            if b.n > 0 {
                collect_preorder(&b.ptr, depth + 1, out);
            }
            let ghost out2 = out@;
            collect_preorder(&b.next, depth, out);
            proof {
                let below = if b.n > 0 {
                    shift(preorder(b.ptr), 1)
                } else {
                    Seq::empty()
                };
                lemma_shift_shift(preorder(b.ptr), 1, depth as nat);
                lemma_shift_concat(seq![b.visit(0)] + below, preorder(b.next), depth as nat);
                lemma_shift_concat(seq![b.visit(0)], below, depth as nat);
                assert(shift(seq![b.visit(0)], depth as nat) =~= seq![b.visit(depth as nat)]);
                assert(views(out1) =~= views(out0) + seq![b.visit(depth as nat)]);
                if b.n == 0 {
                    assert(shift(below, depth as nat) =~= Seq::<NodeView>::empty());
                    assert(views(out2) =~= views(out1) + shift(below, depth as nat));
                }
                assert(views(out@) =~= views(out0) + shift(preorder(*p), depth as nat));
            }
        },
    }
}

} // verus!
