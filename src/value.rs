//! Structured event values and the value-plus-metadata unit carried by events.
use vstd::prelude::*;

verus! {

/// A structured value: the payload or the metadata of an event.
#[derive(Debug, PartialEq, Eq)]
pub enum Value {
    Null,
    Bool(bool),
    I64(i64),
    String(String),
    Array(Vec<Value>),
    Object(Vec<(String, Value)>),
}

/// The mathematical form of a `Value`.
pub enum ValueV {
    Null,
    Bool(bool),
    Int(int),
    Str(Seq<char>),
    Array(Seq<ValueV>),
    Object(Seq<(Seq<char>, ValueV)>),
}

pub open spec fn view_items(s: Seq<Value>) -> Seq<ValueV>
    decreases s,
{
    if s.len() == 0 {
        Seq::empty()
    } else {
        view_items(s.drop_last()).push(s.last().view_v())
    }
}

pub open spec fn view_entries(s: Seq<(String, Value)>) -> Seq<(Seq<char>, ValueV)>
    decreases s,
{
    if s.len() == 0 {
        Seq::empty()
    } else {
        view_entries(s.drop_last()).push((s.last().0@, s.last().1.view_v()))
    }
}

impl Value {
    pub open spec fn view_v(&self) -> ValueV
        decreases self,
    {
        match self {
            Value::Null => ValueV::Null,
            Value::Bool(b) => ValueV::Bool(*b),
            Value::I64(i) => ValueV::Int(*i as int),
            Value::String(s) => ValueV::Str(s@),
            Value::Array(items) => ValueV::Array(view_items(items@)),
            Value::Object(entries) => ValueV::Object(view_entries(entries@)),
        }
    }
}

impl View for Value {
    type V = ValueV;

    open spec fn view(&self) -> ValueV {
        self.view_v()
    }
}

impl Clone for Value {
    fn clone(&self) -> (r: Self)
        ensures
            r@ == self@,
        decreases self,
    {
        match self {
            Value::Null => Value::Null,
            Value::Bool(b) => Value::Bool(*b),
            Value::I64(i) => Value::I64(*i),
            Value::String(s) => Value::String(s.clone()),
            Value::Array(items) => {
                let mut out: Vec<Value> = Vec::new();
                let mut i: usize = 0;
                while i < items.len()
                    invariant
                        i <= items.len(),
                        *self == Value::Array(*items),
                        out.len() == i,
                        view_items(out@) == view_items(items@.subrange(0, i as int)),
                    decreases items.len() - i,
                {
                    proof {
                        let v = self->Array_0;
                                        assert(decreases_to!(*self => v));
                        assert(decreases_to!(v => v@));
                        assert(decreases_to!(v@ => v@[i as int]));
                    }
                    let c = items[i].clone();
                    proof {
                        assert(out@.push(c).drop_last() =~= out@);
                        assert(items@.subrange(0, i + 1).drop_last() =~= items@.subrange(0, i as int));
                    }
                    out.push(c);
                    i += 1;
                }
                proof {
                    assert(items@.subrange(0, i as int) =~= items@);
                }
                Value::Array(out)
            },
            Value::Object(entries) => {
                let mut out: Vec<(String, Value)> = Vec::new();
                let mut i: usize = 0;
                while i < entries.len()
                    invariant
                        i <= entries.len(),
                        *self == Value::Object(*entries),
                        out.len() == i,
                        view_entries(out@) == view_entries(entries@.subrange(0, i as int)),
                    decreases entries.len() - i,
                {
                    let k = entries[i].0.clone();
                    proof {
                        let w = self->Object_0;
                                        assert(decreases_to!(*self => w));
                        assert(decreases_to!(w => w@));
                        assert(decreases_to!(w@ => w@[i as int]));
                        assert(decreases_to!(w@[i as int] => w@[i as int].1));
                    }
                    let v = entries[i].1.clone();
                    proof {
                        assert(out@.push((k, v)).drop_last() =~= out@);
                        assert(entries@.subrange(0, i + 1).drop_last() =~= entries@.subrange(0, i as int));
                    }
                    out.push((k, v));
                    i += 1;
                }
                proof {
                    assert(entries@.subrange(0, i as int) =~= entries@);
                }
                Value::Object(out)
            },
        }
    }
}

/// An event's payload together with its metadata.
#[derive(Debug, PartialEq, Eq)]
pub struct ValueAndMeta {
    pub value: Value,
    pub meta: Value,
}

/// The mathematical form of a `ValueAndMeta`.
pub struct ValueAndMetaV {
    pub value: ValueV,
    pub meta: ValueV,
}

impl View for ValueAndMeta {
    type V = ValueAndMetaV;

    open spec fn view(&self) -> ValueAndMetaV {
        ValueAndMetaV { value: self.value@, meta: self.meta@ }
    }
}

pub open spec fn empty_object() -> ValueV {
    ValueV::Object(Seq::empty())
}

impl Default for ValueAndMeta {
    fn default() -> (r: ValueAndMeta)
        ensures
            r@.value == empty_object(),
            r@.meta == empty_object(),
    {
        ValueAndMeta { value: Value::Object(Vec::new()), meta: Value::Object(Vec::new()) }
    }
}

impl ValueAndMeta {
    /// The pair of `value` and an empty metadata object.
    pub fn from_value(value: Value) -> (r: ValueAndMeta)
        ensures
            r@.value == value@,
            r@.meta == empty_object(),
    {
        ValueAndMeta { value, meta: Value::Object(Vec::new()) }
    }
}

/// Raw byte buffers together with the value and metadata derived from them.
///
/// The parsed pair is owned by the unit, so no view handed out by `parts` can
/// outlive the buffers it was derived from.
#[derive(Debug)]
pub struct LineValue {
    raw: Vec<Vec<u8>>,
    parsed: ValueAndMeta,
}

/// The mathematical form of a `LineValue`.
pub struct LineValueV {
    pub raw: Seq<Seq<u8>>,
    pub value: ValueV,
    pub meta: ValueV,
}

impl View for LineValue {
    type V = LineValueV;

    closed spec fn view(&self) -> LineValueV {
        LineValueV {
            raw: self.raw@.map_values(|b: Vec<u8>| b@),
            value: self.parsed.value@,
            meta: self.parsed.meta@,
        }
    }
}

impl Clone for LineValue {
    /// A unit that owns a copy of the value and metadata and no buffers, so
    /// that the copy depends on nothing of the unit it was made from.
    fn clone(&self) -> (r: LineValue)
        ensures
            r@.raw == Seq::<Seq<u8>>::empty(),
            r@.value == self@.value,
            r@.meta == self@.meta,
    {
        let r = LineValue {
            raw: Vec::new(),
            parsed: ValueAndMeta { value: self.parsed.value.clone(), meta: self.parsed.meta.clone() },
        };
        proof {
            assert(r@.raw =~= Seq::<Seq<u8>>::empty());
        }
        r
    }
}

impl PartialEq for LineValue {
    /// Units are equal when their values and metadata are; the buffers they
    /// came from are not compared.
    fn eq(&self, other: &LineValue) -> (r: bool) {
        self.parsed.value.same_as(&other.parsed.value) && self.parsed.meta.same_as(&other.parsed.meta)
    }
}

impl vstd::std_specs::cmp::PartialEqSpecImpl for LineValue {
    open spec fn obeys_eq_spec() -> bool {
        true
    }

    open spec fn eq_spec(&self, other: &LineValue) -> bool {
        self.pair() == other.pair()
    }
}

impl LineValue {
    /// The buffers of this unit.
    pub fn raw(&self) -> (r: &Vec<Vec<u8>>)
        ensures
            r@.map_values(|b: Vec<u8>| b@) == self@.raw,
    {
        &self.raw
    }

    /// A unit of the given buffers and the pair derived from them.
    pub fn new(raw: Vec<Vec<u8>>, parsed: ValueAndMeta) -> (r: LineValue)
        ensures
            r@.raw == raw@.map_values(|b: Vec<u8>| b@),
            r@.value == parsed.value@,
            r@.meta == parsed.meta@,
    {
        LineValue { raw, parsed }
    }

    /// The value.
    pub fn value(&self) -> (r: &Value)
        ensures
            r@ == self@.value,
    {
        &self.parsed.value
    }

    /// Mutable views of the value and of the metadata.
    pub fn parts(&mut self) -> (r: (&mut Value, &mut Value))
        ensures
            r.0@ == old(self)@.value,
            r.1@ == old(self)@.meta,
            final(self)@ == (LineValueV { raw: old(self)@.raw, value: final(r.0)@, meta: final(r.1)@ }),
    {
        (&mut self.parsed.value, &mut self.parsed.meta)
    }

    /// The value and metadata of this unit as a pair.
    pub open spec fn pair(&self) -> ValueAndMetaV {
        ValueAndMetaV { value: self@.value, meta: self@.meta }
    }

    /// Merges `other` into this unit: the buffers of `other` go behind those
    /// of this unit, and `join_f` combines the two parsed pairs into one.
    /// Where `join_f` fails, the buffers are still joined and the parsed pair
    /// of this unit stays as it was.
    pub fn consume<E, F>(&mut self, other: LineValue, join_f: F) -> (r: Result<(), E>)
        where
            F: Fn(ValueAndMeta, ValueAndMeta) -> Result<ValueAndMeta, E>,
        requires
            forall|a: ValueAndMeta, b: ValueAndMeta| #[trigger] join_f.requires((a, b)),
        ensures
            r is Ok ==> exists|a: ValueAndMeta, b: ValueAndMeta, m: ValueAndMeta|
                    a@ == old(self).pair() && b@ == other.pair()
                    && #[trigger] join_f.ensures((a, b), Ok::<ValueAndMeta, E>(m))
                    && final(self)@ == (LineValueV {
                        raw: old(self)@.raw + other@.raw,
                        value: m@.value,
                        meta: m@.meta,
                    }),
            r is Err ==> exists|a: ValueAndMeta, b: ValueAndMeta|
                a@ == old(self).pair() && b@ == other.pair()
                && #[trigger] join_f.ensures((a, b), Err::<ValueAndMeta, E>(r->Err_0))
                && final(self)@ == (LineValueV {
                    raw: old(self)@.raw + other@.raw,
                    value: old(self)@.value,
                    meta: old(self)@.meta,
                }),
    {
        let mine = ValueAndMeta { value: self.parsed.value.clone(), meta: self.parsed.meta.clone() };
        let LineValue { raw: mut other_raw, parsed: other_parsed } = other;
        let ghost a = mine;
        let ghost b = other_parsed;
        self.raw.append(&mut other_raw);
        proof {
            assert(self@.raw =~= old(self)@.raw + other@.raw);
        }
        match join_f(mine, other_parsed) {
            Ok(m) => {
                self.parsed = m;
                proof {
                    assert(join_f.ensures((a, b), Ok::<ValueAndMeta, E>(m)));
                    assert(a@ == old(self).pair());
                    assert(b@ == other.pair());
                    assert(exists|a: ValueAndMeta, b: ValueAndMeta, m: ValueAndMeta|
                        a@ == old(self).pair() && b@ == other.pair()
                        && #[trigger] join_f.ensures((a, b), Ok::<ValueAndMeta, E>(m))
                        && self@ == (LineValueV { raw: old(self)@.raw + other@.raw, value: m@.value, meta: m@.meta }));
                }
                Ok(())
            },
            Err(e) => {
                proof {
                    assert(join_f.ensures((a, b), Err::<ValueAndMeta, E>(e)));
                    assert(a@ == old(self).pair());
                    assert(b@ == other.pair());
                    assert(self@ == (LineValueV { raw: old(self)@.raw + other@.raw, value: old(self)@.value, meta: old(self)@.meta }));
                    assert((Err::<(), E>(e))->Err_0 == e);
                }
                Err(e)
            },
        }
    }
}

/// The value of the first entry whose key is `key`.
pub open spec fn field_of(entries: Seq<(Seq<char>, ValueV)>, key: Seq<char>) -> Option<ValueV>
    decreases entries.len(),
{
    if entries.len() == 0 {
        None
    } else if entries[0].0 == key {
        Some(entries[0].1)
    } else {
        field_of(entries.drop_first(), key)
    }
}

/// What a path of field names reaches inside a value, if anything.
pub open spec fn value_at(v: ValueV, path: Seq<Seq<char>>) -> Option<ValueV>
    decreases path.len(),
{
    if path.len() == 0 {
        Some(v)
    } else {
        match v {
            ValueV::Object(entries) => match field_of(entries, path[0]) {
                Some(inner) => value_at(inner, path.drop_first()),
                None => None,
            },
            _ => None,
        }
    }
}

/// The names of a path as character sequences.
pub open spec fn path_view(path: Seq<String>) -> Seq<Seq<char>> {
    path.map_values(|s: String| s@)
}

proof fn lemma_view_entries_index(s: Seq<(String, Value)>, i: int)
    requires
        0 <= i < s.len(),
    ensures
        view_entries(s).len() == s.len(),
        view_entries(s)[i] == (s[i].0@, s[i].1@),
    decreases s.len(),
{
    lemma_view_entries_len(s);
    if i < s.len() - 1 {
        lemma_view_entries_index(s.drop_last(), i);
        assert(s.drop_last()[i] == s[i]);
    }
}

pub proof fn lemma_view_items_index(s: Seq<Value>, i: int)
    requires
        0 <= i < s.len(),
    ensures
        view_items(s).len() == s.len(),
        view_items(s)[i] == s[i]@,
    decreases s.len(),
{
    lemma_view_items_len(s);
    if i < s.len() - 1 {
        lemma_view_items_index(s.drop_last(), i);
        assert(s.drop_last()[i] == s[i]);
    }
}

pub proof fn lemma_view_items_len(s: Seq<Value>)
    ensures
        view_items(s).len() == s.len(),
    decreases s.len(),
{
    if s.len() > 0 {
        lemma_view_items_len(s.drop_last());
    }
}

pub proof fn lemma_view_entries_len(s: Seq<(String, Value)>)
    ensures
        view_entries(s).len() == s.len(),
    decreases s.len(),
{
    if s.len() > 0 {
        lemma_view_entries_len(s.drop_last());
    }
}

impl Value {
    /// Whether the two values are equal.
    pub fn same_as(&self, other: &Value) -> (r: bool)
        ensures
            r == (self@ == other@),
        decreases self,
    {
        match (self, other) {
            (Value::Null, Value::Null) => true,
            (Value::Bool(a), Value::Bool(b)) => *a == *b,
            (Value::I64(a), Value::I64(b)) => *a == *b,
            (Value::String(a), Value::String(b)) => *a == *b,
            (Value::Array(xs), Value::Array(ys)) => {
                proof {
                    lemma_view_items_len(xs@);
                    lemma_view_items_len(ys@);
                }
                if xs.len() != ys.len() {
                    return false;
                }
                let mut i: usize = 0;
                while i < xs.len()
                    invariant
                        i <= xs.len(),
                        xs.len() == ys.len(),
                        *self == Value::Array(*xs),
                        *other == Value::Array(*ys),
                        forall|j: int| 0 <= j < i ==> (#[trigger] xs@[j])@ == ys@[j]@,
                    decreases xs.len() - i,
                {
                    proof {
                        let w = self->Array_0;
                        assert(decreases_to!(*self => w));
                        assert(decreases_to!(w => w@));
                        assert(decreases_to!(w@ => w@[i as int]));
                        lemma_view_items_index(xs@, i as int);
                        lemma_view_items_index(ys@, i as int);
                    }
                    if !xs[i].same_as(&ys[i]) {
                        return false;
                    }
                    i += 1;
                }
                proof {
                    assert forall|j: int| 0 <= j < xs.len() implies view_items(xs@)[j] == view_items(ys@)[j] by {
                        lemma_view_items_index(xs@, j);
                        lemma_view_items_index(ys@, j);
                    }
                    assert(view_items(xs@) =~= view_items(ys@));
                }
                true
            },
            (Value::Object(xs), Value::Object(ys)) => {
                proof {
                    lemma_view_entries_len(xs@);
                    lemma_view_entries_len(ys@);
                }
                if xs.len() != ys.len() {
                    return false;
                }
                let mut i: usize = 0;
                while i < xs.len()
                    invariant
                        i <= xs.len(),
                        xs.len() == ys.len(),
                        *self == Value::Object(*xs),
                        *other == Value::Object(*ys),
                        forall|j: int| 0 <= j < i ==> (#[trigger] xs@[j]).0@ == ys@[j].0@ && xs@[j].1@ == ys@[j].1@,
                    decreases xs.len() - i,
                {
                    proof {
                        let w = self->Object_0;
                        assert(decreases_to!(*self => w));
                        assert(decreases_to!(w => w@));
                        assert(decreases_to!(w@ => w@[i as int]));
                        assert(decreases_to!(w@[i as int] => w@[i as int].1));
                        lemma_view_entries_index(xs@, i as int);
                        lemma_view_entries_index(ys@, i as int);
                    }
                    if xs[i].0 != ys[i].0 {
                        return false;
                    }
                    if !xs[i].1.same_as(&ys[i].1) {
                        return false;
                    }
                    i += 1;
                }
                proof {
                    assert forall|j: int| 0 <= j < xs.len() implies view_entries(xs@)[j] == view_entries(ys@)[j] by {
                        lemma_view_entries_index(xs@, j);
                        lemma_view_entries_index(ys@, j);
                    }
                    assert(view_entries(xs@) =~= view_entries(ys@));
                }
                true
            },
            _ => false,
        }
    }

    /// The field `key` of an object; `None` for a missing field or a value that is no object.
    pub fn get_field(&self, key: &String) -> (r: Option<&Value>)
        ensures
            match self@ {
                ValueV::Object(entries) => match field_of(entries, key@) {
                    Some(x) => r.is_some() && r.unwrap()@ == x,
                    None => r.is_none(),
                },
                _ => r.is_none(),
            },
    {
        match self {
            Value::Object(entries) => {
                let ghost es = view_entries(entries@);
                proof {
                    lemma_view_entries_len(entries@);
                    assert(es.subrange(0, es.len() as int) =~= es);
                }
                let mut i: usize = 0;
                while i < entries.len()
                    invariant
                        i <= entries.len(),
                        self@ == ValueV::Object(es),
                        es == view_entries(entries@),
                        es.len() == entries.len(),
                        field_of(es, key@) == field_of(es.subrange(i as int, es.len() as int), key@),
                    decreases entries.len() - i,
                {
                    proof {
                        lemma_view_entries_index(entries@, i as int);
                        let rest = es.subrange(i as int, es.len() as int);
                        assert(rest.drop_first() =~= es.subrange(i + 1, es.len() as int));
                    }
                    if entries[i].0 == *key {
                        return Some(&entries[i].1);
                    }
                    i += 1;
                }
                None
            },
            _ => None,
        }
    }

    /// What `path` reaches inside this value.
    pub fn at_path(&self, path: &Vec<String>) -> (r: Option<&Value>)
        ensures
            match value_at(self@, path_view(path@)) {
                Some(x) => r.is_some() && r.unwrap()@ == x,
                None => r.is_none(),
            },
    {
        let mut cur: &Value = self;
        let mut i: usize = 0;
        proof {
            assert(path_view(path@).subrange(0, path.len() as int) =~= path_view(path@));
        }
        while i < path.len()
            invariant
                i <= path.len(),
                value_at(self@, path_view(path@)) == value_at(cur@, path_view(path@).subrange(i as int, path.len() as int)),
            decreases path.len() - i,
        {
            let ghost rest = path_view(path@).subrange(i as int, path.len() as int);
            proof {
                assert(rest.drop_first() =~= path_view(path@).subrange(i + 1, path.len() as int));
                assert(rest[0] == path[i as int]@);
            }
            match cur.get_field(&path[i]) {
                Some(next) => {
                    cur = next;
                },
                None => {
                    return None;
                },
            }
            i += 1;
        }
        proof {
            assert(path_view(path@).subrange(i as int, path.len() as int) =~= Seq::<Seq<char>>::empty());
        }
        Some(cur)
    }
}

} // verus!
