//! Evaluated declaration values, diagnostics, and the placeholder map that
//! the rewriter consults: a name-keyed association with last-wins insertion.

use vstd::prelude::*;

verus! {

/// The evaluated state of a declaration's value: a concrete string, or the
/// absent sentinel requesting literal pass-through of the placeholder.
pub enum Value {
    Str(String),
    Absent,
}

/// Mathematical model of a `Value`.
#[verifier::ext_equal]
pub enum Binding {
    Resolved(Seq<char>),
    Absent,
}

/// Model of a single value.
pub open spec fn bind_view(v: Value) -> Binding {
    match v {
        Value::Str(s) => Binding::Resolved(s@),
        Value::Absent => Binding::Absent,
    }
}

impl Value {
    /// The resolved string, or nothing for the absent sentinel.
    pub fn to_string(&self) -> (r: Option<String>)
        ensures
            bind_view(*self) is Resolved <==> r is Some,
            r is Some ==> bind_view(*self)->Resolved_0 == r->0@,
    {
        match self {
            Value::Str(s) => Option::Some(s.clone()),
            Value::Absent => Option::None,
        }
    }
}

/// A diagnostic: a source range (start and end span) and a message.
pub struct Diag {
    pub start: u32,
    pub end: u32,
    pub msg: String,
}

/// Mathematical model of a diagnostic.
#[verifier::ext_equal]
pub struct DiagS {
    pub start: u32,
    pub end: u32,
    pub msg: Seq<char>,
}

/// Model of a single diagnostic.
pub open spec fn diag_view(d: Diag) -> DiagS {
    DiagS { start: d.start, end: d.end, msg: d.msg@ }
}

/// Model of a list of diagnostics.
pub open spec fn diag_views(ds: Seq<Diag>) -> Seq<DiagS> {
    Seq::new(ds.len(), |i: int| diag_view(ds[i]))
}

/// Appending one diagnostic appends its model.
pub proof fn lemma_diag_views_push(ds: Seq<Diag>, d: Diag)
    ensures
        diag_views(ds.push(d)) == diag_views(ds).push(diag_view(d)),
{
    assert(diag_views(ds.push(d)) =~= diag_views(ds).push(diag_view(d)));
}

/// The map that an association list denotes; later entries win.
pub open spec fn map_of(es: Seq<(String, Value)>) -> Map<Seq<char>, Binding>
    decreases es.len(),
{
    if es.len() == 0 {
        Map::empty()
    } else {
        map_of(es.drop_last()).insert(es.last().0@, bind_view(es.last().1))
    }
}

/// A name not bound by a suffix of the list is decided by the prefix.
proof fn lemma_lookup_prefix(es: Seq<(String, Value)>, k: Seq<char>, i: int)
    requires
        0 <= i <= es.len(),
        forall|j: int| i <= j < es.len() ==> #[trigger] es[j].0@ != k,
    ensures
        map_of(es).contains_key(k) == map_of(es.take(i)).contains_key(k),
        map_of(es).contains_key(k) ==> map_of(es)[k] == map_of(es.take(i))[k],
    decreases es.len() - i,
{
    if i < es.len() {
        let shorter = es.drop_last();
        assert(es.last().0@ != k);
        assert(shorter.take(i) =~= es.take(i));
        lemma_lookup_prefix(shorter, k, i);
    } else {
        assert(es.take(i) =~= es);
    }
}

/// One step of `map_of` over a prefix.
proof fn lemma_map_of_take_step(es: Seq<(String, Value)>, i: int)
    requires
        0 <= i < es.len(),
    ensures
        map_of(es.take(i + 1)) == map_of(es.take(i)).insert(es[i].0@, bind_view(es[i].1)),
{
    assert(es.take(i + 1).drop_last() =~= es.take(i));
    assert(es.take(i + 1).last() == es[i]);
}

/// The placeholder map: placeholder names to evaluated values, where a later
/// insertion of the same name shadows an earlier one.
pub struct PhMap {
    pub entries: Vec<(String, Value)>,
}

impl PhMap {
    /// The map this association list denotes.
    pub open spec fn view(&self) -> Map<Seq<char>, Binding> {
        map_of(self.entries@)
    }

    /// An empty map.
    pub fn new() -> (r: PhMap)
        ensures
            r@ == Map::<Seq<char>, Binding>::empty(),
    {
        PhMap { entries: Vec::new() }
    }

    /// Bind `k` to `v`, shadowing any earlier binding of `k`.
    pub fn insert(&mut self, k: String, v: Value)
        ensures
            final(self)@ == old(self)@.insert(k@, bind_view(v)),
    {
        let ghost prev = self.entries@;
        let ghost kv = k@;
        let ghost bv = bind_view(v);
        self.entries.push((k, v));
        proof {
            assert(self.entries@.drop_last() =~= prev);
            assert(self.entries@.last().0@ == kv);
            assert(bind_view(self.entries@.last().1) == bv);
        }
    }

    /// Look the name up; the latest binding wins.
    pub fn get<'a>(&'a self, k: &String) -> (r: Option<&'a Value>)
        ensures
            match r {
                Option::Some(v) => self@.contains_key(k@) && self@[k@] == bind_view(*v),
                Option::None => !self@.contains_key(k@),
            },
    {
        let mut i: usize = self.entries.len();
        while i > 0
            invariant
                i <= self.entries@.len(),
                forall|j: int| i <= j < self.entries@.len() ==> #[trigger] self.entries@[j].0@
                    != k@,
            decreases i,
        {
            if self.entries[i - 1].0 == *k {
                proof {
                    lemma_lookup_prefix(self.entries@, k@, i as int);
                    lemma_map_of_take_step(self.entries@, i as int - 1);
                }
                return Option::Some(&self.entries[i - 1].1);
            }
            i = i - 1;
        }
        proof {
            lemma_lookup_prefix(self.entries@, k@, 0);
            assert(self.entries@.take(0) =~= Seq::<(String, Value)>::empty());
        }
        Option::None
    }

    /// Whether the name is bound.
    pub fn contains(&self, k: &String) -> (r: bool)
        ensures
            r == self@.contains_key(k@),
    {
        match self.get(k) {
            Option::Some(_) => true,
            Option::None => false,
        }
    }
}

} // verus!
