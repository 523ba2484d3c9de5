//! Runtime values: the tagged union the constant pool and the machine's
//! stack hold, its mathematical view, and the truthiness rule.

use vstd::prelude::*;

verus! {

broadcast use vstd::std_specs::vec::group_vec_axioms, vstd::seq::group_seq_axioms;

/// A compiled function object: the finished instruction stream of one
/// function body.
#[derive(Debug, PartialEq)]
pub struct CompiledFunction {
    pub instructions: Vec<u8>,
}

/// A runtime value. Booleans and null are dedicated singletons (they never
/// enter the constant pool); a hash map is kept as its key-value pairs in
/// insertion order, later pairs shadowing earlier ones with the same key.
#[derive(Debug, PartialEq)]
pub enum Object {
    INTEGER(i64),
    STRING(String),
    BOOLEAN(bool),
    NULL,
    ARRAY(Vec<Object>),
    HASHMAP(Vec<(Object, Object)>),
    COMPILEDFUNCTION(CompiledFunction),
}

/// The mathematical value of a runtime object.
pub enum ObjV {
    Int(i64),
    Str(Seq<char>),
    Bool(bool),
    Null,
    Arr(Seq<ObjV>),
    Hash(Seq<(ObjV, ObjV)>),
    Fun(Seq<u8>),
}

/// The view of an object: integers widen, strings become their character
/// sequences, collections map their contents pointwise.
pub open spec fn obj_view(o: Object) -> ObjV
    decreases o,
{
    match o {
        Object::INTEGER(i) => ObjV::Int(i),
        Object::STRING(s) => ObjV::Str(s@),
        Object::BOOLEAN(b) => ObjV::Bool(b),
        Object::NULL => ObjV::Null,
        Object::ARRAY(elements) => ObjV::Arr(obj_views(elements@)),
        Object::HASHMAP(pairs) => ObjV::Hash(pair_views(pairs@)),
        Object::COMPILEDFUNCTION(cf) => ObjV::Fun(cf.instructions@),
    }
}

/// Pointwise view of a sequence of objects.
pub open spec fn obj_views(s: Seq<Object>) -> Seq<ObjV>
    decreases s,
{
    if s.len() == 0 {
        Seq::empty()
    } else {
        obj_views(s.drop_last()).push(obj_view(s.last()))
    }
}

/// Pointwise view of a sequence of key-value pairs.
pub open spec fn pair_views(s: Seq<(Object, Object)>) -> Seq<(ObjV, ObjV)>
    decreases s,
{
    if s.len() == 0 {
        Seq::empty()
    } else {
        pair_views(s.drop_last()).push((obj_view(s.last().0), obj_view(s.last().1)))
    }
}

/// `obj_views` maps the view over the sequence: it keeps the length and
/// views each element in place.
pub proof fn lemma_obj_views_index(s: Seq<Object>)
    ensures
        obj_views(s).len() == s.len(),
        forall|i: int| 0 <= i < s.len() ==> obj_views(s)[i] == obj_view(s[i]),
    decreases s.len(),
{
    if s.len() > 0 {
        lemma_obj_views_index(s.drop_last());
    }
}

/// `pair_views` maps the view over the pairs: it keeps the length and
/// views both halves of each pair in place.
pub proof fn lemma_pair_views_index(s: Seq<(Object, Object)>)
    ensures
        pair_views(s).len() == s.len(),
        forall|i: int|
            0 <= i < s.len() ==> pair_views(s)[i] == (obj_view(s[i].0), obj_view(s[i].1)),
    decreases s.len(),
{
    if s.len() > 0 {
        lemma_pair_views_index(s.drop_last());
    }
}

/// Viewing commutes with appending one element.
pub proof fn lemma_obj_views_push(s: Seq<Object>, o: Object)
    ensures
        obj_views(s.push(o)) == obj_views(s).push(obj_view(o)),
{
    assert(s.push(o).drop_last() =~= s);
    assert(s.push(o).last() == o);
}

/// Viewing commutes with dropping the last element.
pub proof fn lemma_obj_views_drop_last(s: Seq<Object>)
    requires
        s.len() > 0,
    ensures
        obj_views(s.drop_last()) == obj_views(s).drop_last(),
        obj_views(s).last() == obj_view(s.last()),
        obj_views(s).len() == s.len(),
{
    lemma_obj_views_index(s);
    assert(obj_views(s).drop_last() =~= obj_views(s.drop_last()));
}

/// Viewing pairs commutes with appending one pair.
pub proof fn lemma_pair_views_push(s: Seq<(Object, Object)>, k: Object, v: Object)
    ensures
        pair_views(s.push((k, v))) == pair_views(s).push((obj_view(k), obj_view(v))),
{
    assert(s.push((k, v)).drop_last() =~= s);
    assert(s.push((k, v)).last() == (k, v));
}

impl View for Object {
    type V = ObjV;

    open spec fn view(&self) -> ObjV {
        obj_view(*self)
    }
}

/// The boolean-coercion rule: every value is truthy except `false` and
/// null.
pub open spec fn truthy_spec(v: ObjV) -> bool {
    !(v == ObjV::Bool(false) || v == ObjV::Null)
}

impl Object {
    /// Whether the machine treats this value as true.
    pub fn is_truthy(&self) -> (r: bool)
        ensures
            r == truthy_spec(self@),
    {
        match self {
            Object::BOOLEAN(b) => *b,
            Object::NULL => false,
            _ => true,
        }
    }

    /// A deep copy with the same mathematical value.
    #[verifier::loop_isolation(false)]
    pub fn duplicate(&self) -> (r: Object)
        ensures
            r@ == self@,
        decreases *self,
    {
        match self {
            Object::INTEGER(i) => Object::INTEGER(*i),
            Object::STRING(s) => Object::STRING(s.clone()),
            Object::BOOLEAN(b) => Object::BOOLEAN(*b),
            Object::NULL => Object::NULL,
            Object::ARRAY(elements) => {
                let mut out: Vec<Object> = Vec::new();
                let n: usize = elements.len();
                let mut i: usize = 0;
                while i < n
                    invariant
                        i <= n,
                        n == elements@.len(),
                        out@.len() == i as int,
                        forall|k: int| 0 <= k < i as int ==> out@[k]@ == elements@[k]@,
                    decreases n - i,
                {
                    proof {
                        assert(*self == Object::ARRAY(*elements));
                        assert(decreases_to!(*self => *elements));
                        assert(decreases_to!(*elements => elements@[i as int]));
                    }
                    let e = elements[i].duplicate();
                    out.push(e);
                    i = i + 1;
                }
                proof {
                    lemma_obj_views_index(out@);
                    lemma_obj_views_index(elements@);
                    assert(obj_views(out@) =~= obj_views(elements@));
                }
                Object::ARRAY(out)
            },
            Object::HASHMAP(pairs) => {
                let mut out: Vec<(Object, Object)> = Vec::new();
                let n: usize = pairs.len();
                let mut i: usize = 0;
                while i < n
                    invariant
                        i <= n,
                        n == pairs@.len(),
                        out@.len() == i as int,
                        forall|k: int| 0 <= k < i as int
                            ==> out@[k].0@ == pairs@[k].0@ && out@[k].1@ == pairs@[k].1@,
                    decreases n - i,
                {
                    proof {
                        assert(*self == Object::HASHMAP(*pairs));
                        assert(decreases_to!(*self => *pairs));
                        assert(decreases_to!(*pairs => pairs@[i as int]));
                    }
                    let k = pairs[i].0.duplicate();
                    let v = pairs[i].1.duplicate();
                    out.push((k, v));
                    i = i + 1;
                }
                proof {
                    lemma_pair_views_index(out@);
                    lemma_pair_views_index(pairs@);
                    assert(pair_views(out@) =~= pair_views(pairs@));
                }
                Object::HASHMAP(out)
            },
            Object::COMPILEDFUNCTION(cf) => Object::COMPILEDFUNCTION(
                CompiledFunction { instructions: cf.instructions.clone() },
            ),
        }
    }
}

} // verus!
