use vstd::prelude::*;

verus! {

/// A typed attribute value.
#[derive(Debug, PartialEq)]
pub enum Value {
    Bool(bool),
    I64(i64),
    Str(String),
}

impl Clone for Value {
    fn clone(&self) -> (r: Self)
        ensures
            r == *self,
    {
        match self {
            Value::Bool(b) => Value::Bool(*b),
            Value::I64(n) => Value::I64(*n),
            Value::Str(s) => Value::Str(s.clone()),
        }
    }
}

/// One attribute: a key and its value.
#[derive(Debug, Clone)]
pub struct KeyValue {
    pub key: String,
    pub value: Value,
}

impl KeyValue {
    pub fn new(key: String, value: Value) -> (r: KeyValue)
        ensures
            r.key == key,
            r.value == value,
    {
        KeyValue { key, value }
    }
}

/// The attribute map that a list of attributes describes; a later entry
/// for a key replaces an earlier one.
pub open spec fn attr_map(s: Seq<KeyValue>) -> Map<Seq<char>, Value>
    decreases s.len(),
{
    if s.len() == 0 {
        Map::empty()
    } else {
        attr_map(s.drop_last()).insert(s.last().key@, s.last().value)
    }
}

/// No key occurs twice.
pub open spec fn keys_unique(s: Seq<KeyValue>) -> bool {
    forall|i: int, j: int| 0 <= i < j < s.len() ==> (#[trigger] s[i]).key@ != (#[trigger] s[j]).key@
}

proof fn lemma_attr_map_domain(s: Seq<KeyValue>, k: Seq<char>)
    ensures
        attr_map(s).contains_key(k) <==> exists|i: int| 0 <= i < s.len() && (#[trigger] s[i]).key@ == k,
    decreases s.len(),
{
    if s.len() > 0 {
        lemma_attr_map_domain(s.drop_last(), k);
        if attr_map(s.drop_last()).contains_key(k) {
            let i = choose|i: int| 0 <= i < s.drop_last().len() && (#[trigger] s.drop_last()[i]).key@ == k;
            assert(s[i] == s.drop_last()[i]);
        }
        if exists|i: int| 0 <= i < s.len() && (#[trigger] s[i]).key@ == k {
            let i = choose|i: int| 0 <= i < s.len() && (#[trigger] s[i]).key@ == k;
            if i < s.len() - 1 {
                assert(s[i] == s.drop_last()[i]);
            }
        }
    }
}

proof fn lemma_attr_map_len(s: Seq<KeyValue>)
    requires
        keys_unique(s),
    ensures
        attr_map(s).dom().finite(),
        attr_map(s).dom().len() == s.len(),
    decreases s.len(),
{
    if s.len() > 0 {
        let p = s.drop_last();
        assert(keys_unique(p)) by {
            assert forall|i: int, j: int| 0 <= i < j < p.len() implies (#[trigger] p[i]).key@ != (#[trigger] p[j]).key@ by {
                assert(p[i] == s[i] && p[j] == s[j]);
            }
        }
        lemma_attr_map_len(p);
        lemma_attr_map_domain(p, s.last().key@);
        if attr_map(p).contains_key(s.last().key@) {
            let i = choose|i: int| 0 <= i < p.len() && (#[trigger] p[i]).key@ == s.last().key@;
            assert(p[i] == s[i]);
        }
    }
}

/// The characters of an optional string.
pub open spec fn opt_chars(o: Option<String>) -> Option<Seq<char>> {
    match o {
        Some(u) => Some(u@),
        None => None,
    }
}

/// The attributes that describe the emitting process, with an optional schema URL.
#[derive(Debug, Clone)]
pub struct Resource {
    attrs: Vec<KeyValue>,
    schema_url: Option<String>,
}

impl Resource {
    /// The attribute map of this resource.
    pub closed spec fn attributes(&self) -> Map<Seq<char>, Value> {
        attr_map(self.attrs@)
    }

    /// The schema URL of this resource.
    pub closed spec fn schema(&self) -> Option<Seq<char>> {
        opt_chars(self.schema_url)
    }

    /// Keys are stored at most once.
    pub closed spec fn wf(&self) -> bool {
        keys_unique(self.attrs@)
    }

    /// A resource with no attributes and no schema URL.
    pub fn empty() -> (r: Resource)
        ensures
            r.wf(),
            r.attributes() == Map::<Seq<char>, Value>::empty(),
            r.schema() is None,
    {
        Resource { attrs: Vec::new(), schema_url: None }
    }

    /// Where a key is stored in `self.attrs`, if anywhere.
    fn position(&self, key: &String) -> (r: Option<usize>)
        ensures
            match r {
                Some(i) => i < self.attrs@.len() && self.attrs@[i as int].key@ == key@,
                None => forall|i: int| 0 <= i < self.attrs@.len() ==> (#[trigger] self.attrs@[i]).key@ != key@,
            },
    {
        let mut i: usize = 0;
        while i < self.attrs.len()
            invariant
                i <= self.attrs@.len(),
                forall|j: int| 0 <= j < i ==> (#[trigger] self.attrs@[j]).key@ != key@,
            decreases self.attrs@.len() - i,
        {
            if self.attrs[i].key == *key {
                return Some(i);
            }
            i = i + 1;
        }
        None
    }

    /// Adds an attribute whose key is not yet present.
    fn push_new(&mut self, kv: KeyValue)
        requires
            old(self).wf(),
            !old(self).attributes().contains_key(kv.key@),
        ensures
            final(self).wf(),
            final(self).attributes() == old(self).attributes().insert(kv.key@, kv.value),
            final(self).schema_url == old(self).schema_url,
    {
        proof {
            lemma_attr_map_domain(self.attrs@, kv.key@);
        }
        let ghost before = self.attrs@;
        self.attrs.push(kv);
        proof {
            assert(self.attrs@.drop_last() == before);
        }
    }

    /// A resource holding `attrs`, with no schema URL; where a key occurs
    /// more than once, the last value given for it is kept.
    pub fn new(attrs: Vec<KeyValue>) -> (r: Resource)
        ensures
            r.wf(),
            r.attributes() == attr_map(attrs@),
            r.schema() is None,
    {
        Resource::from_schema_url(attrs, None)
    }

    /// A resource holding `attrs` and the schema URL `url`; where a key occurs
    /// more than once, the last value given for it is kept.
    pub fn from_schema_url(attrs: Vec<KeyValue>, url: Option<String>) -> (r: Resource)
        ensures
            r.wf(),
            r.attributes() == attr_map(attrs@),
            r.schema() == opt_chars(url),
    {
        let mut res = Resource { attrs: Vec::new(), schema_url: url };
        let mut rest = attrs;
        let ghost all = rest@;
        let ghost mut done: int = 0;
        while rest.len() > 0
            invariant
                res.wf(),
                res.schema_url == url,
                0 <= done <= all.len(),
                rest@ == all.subrange(done, all.len() as int),
                res.attributes() == attr_map(all.subrange(0, done)),
            decreases rest@.len(),
        {
            let kv = rest.remove(0);
            proof {
                assert(all.subrange(0, done + 1).drop_last() == all.subrange(0, done));
                assert(all[done] == kv);
                done = done + 1;
                assert(rest@ == all.subrange(done, all.len() as int));
            }
            match res.position(&kv.key) {
                Some(i) => {
                    proof {
                        lemma_attr_map_domain(res.attrs@, kv.key@);
                    }
                    res.replace_at(i, kv);
                },
                None => {
                    proof {
                        lemma_attr_map_domain(res.attrs@, kv.key@);
                    }
                    res.push_new(kv);
                },
            }
        }
        proof {
            assert(all.subrange(0, all.len() as int) == all);
        }
        res
    }

    /// Replaces the attribute at `i`, whose key is that of `kv`.
    fn replace_at(&mut self, i: usize, kv: KeyValue)
        requires
            old(self).wf(),
            i < old(self).attrs@.len(),
            old(self).attrs@[i as int].key@ == kv.key@,
        ensures
            final(self).wf(),
            final(self).attributes() == old(self).attributes().insert(kv.key@, kv.value),
            final(self).schema_url == old(self).schema_url,
    {
        let ghost before = self.attrs@;
        let ghost k = kv.key@;
        let ghost v = kv.value;
        self.attrs.set(i, kv);
        proof {
            lemma_replace_map(before, i as int, self.attrs@);
        }
    }

    /// Combines two resources; on a key that both hold, and for the schema
    /// URL, the value of `self` is kept.
    pub fn merge(self, other: Resource) -> (r: Resource)
        requires
            self.wf(),
            other.wf(),
        ensures
            r.wf(),
            r.attributes() == other.attributes().union_prefer_right(self.attributes()),
            r.schema() == (if self.schema() is Some { self.schema() } else { other.schema() }),
    {
        let ghost base = self.attributes();
        let Resource { attrs: other_attrs, schema_url: other_url } = other;
        let mut res = self;
        if res.schema_url.is_none() {
            res.schema_url = other_url;
        }
        let mut rest = other_attrs;
        let ghost all = rest@;
        let ghost mut done: int = 0;
        assert(all.subrange(0, 0) =~= Seq::<KeyValue>::empty());
        assert(base =~= Map::<Seq<char>, Value>::empty().union_prefer_right(base));
        while rest.len() > 0
            invariant
                res.wf(),
                keys_unique(all),
                res.schema() == (if self.schema() is Some { self.schema() } else { opt_chars(other_url) }),
                0 <= done <= all.len(),
                rest@ == all.subrange(done, all.len() as int),
                res.attributes() == attr_map(all.subrange(0, done)).union_prefer_right(base),
            decreases rest@.len(),
        {
            let kv = rest.remove(0);
            let ghost prev = all.subrange(0, done);
            proof {
                assert(all.subrange(0, done + 1).drop_last() == prev);
                assert(all[done] == kv);
                assert(all.subrange(0, done + 1).last() == kv);
                lemma_attr_map_domain(res.attrs@, kv.key@);
                lemma_attr_map_domain(prev, kv.key@);
                if attr_map(prev).contains_key(kv.key@) {
                    let j = choose|j: int| 0 <= j < prev.len() && (#[trigger] prev[j]).key@ == kv.key@;
                    assert(prev[j] == all[j]);
                }
                done = done + 1;
                assert(rest@ == all.subrange(done, all.len() as int));
            }
            match res.position(&kv.key) {
                Some(_) => {
                    proof {
                        assert(res.attributes() =~= attr_map(all.subrange(0, done)).union_prefer_right(base));
                    }
                },
                None => {
                    res.push_new(kv);
                    proof {
                        assert(res.attributes() =~= attr_map(all.subrange(0, done)).union_prefer_right(base));
                    }
                },
            }
        }
        proof {
            assert(all.subrange(0, all.len() as int) == all);
        }
        res
    }

    /// The value stored under `key`, if any.
    pub fn get(&self, key: &String) -> (r: Option<Value>)
        requires
            self.wf(),
        ensures
            match r {
                Some(v) => self.attributes().contains_key(key@) && self.attributes()[key@] == v,
                None => !self.attributes().contains_key(key@),
            },
    {
        proof {
            lemma_attr_map_domain(self.attrs@, key@);
        }
        match self.position(key) {
            Some(i) => {
                proof {
                    lemma_unique_lookup(self.attrs@, i as int);
                }
                Some(self.attrs[i].value.clone())
            },
            None => None,
        }
    }

    /// How many attributes this resource holds.
    pub fn len(&self) -> (r: usize)
        requires
            self.wf(),
        ensures
            r == self.attributes().dom().len(),
    {
        proof {
            lemma_attr_map_len(self.attrs@);
        }
        self.attrs.len()
    }

    /// The schema URL of this resource, if it has one.
    pub fn schema_url(&self) -> (r: Option<String>)
        ensures
            opt_chars(r) == self.schema(),
    {
        match &self.schema_url {
            Some(u) => Some(u.clone()),
            None => None,
        }
    }
}

/// The attributes after merging each of `ms` in turn into what came
/// before, the earlier value winning on a shared key.
pub open spec fn accumulated(ms: Seq<Map<Seq<char>, Value>>) -> Map<Seq<char>, Value>
    decreases ms.len(),
{
    if ms.len() == 0 {
        Map::empty()
    } else {
        ms.last().union_prefer_right(accumulated(ms.drop_last()))
    }
}

/// Merging attribute sets one after another yields exactly the union of
/// their keys.
pub proof fn merged_keys_are_union(ms: Seq<Map<Seq<char>, Value>>, k: Seq<char>)
    ensures
        accumulated(ms).contains_key(k) <==> exists|i: int| 0 <= i < ms.len() && (#[trigger] ms[i]).contains_key(k),
    decreases ms.len(),
{
    if ms.len() > 0 {
        let p = ms.drop_last();
        merged_keys_are_union(p, k);
        if exists|i: int| 0 <= i < ms.len() && (#[trigger] ms[i]).contains_key(k) {
            let i = choose|i: int| 0 <= i < ms.len() && (#[trigger] ms[i]).contains_key(k);
            if i < ms.len() - 1 {
                assert(p[i] == ms[i]);
            }
        }
        if accumulated(p).contains_key(k) {
            let i = choose|i: int| 0 <= i < p.len() && (#[trigger] p[i]).contains_key(k);
            assert(p[i] == ms[i]);
        }
    }
}

/// Merging attribute sets one after another, a key keeps the value of the
/// first set that held it: no later set overrides it.
pub proof fn merge_keeps_first_value(ms: Seq<Map<Seq<char>, Value>>, k: Seq<char>, i: int)
    requires
        0 <= i < ms.len(),
        ms[i].contains_key(k),
        forall|j: int| 0 <= j < i ==> !(#[trigger] ms[j]).contains_key(k),
    ensures
        accumulated(ms).contains_key(k),
        accumulated(ms)[k] == ms[i][k],
    decreases ms.len(),
{
    let p = ms.drop_last();
    if i < ms.len() - 1 {
        assert forall|j: int| 0 <= j < i implies !(#[trigger] p[j]).contains_key(k) by {
            assert(p[j] == ms[j]);
        }
        assert(p[i] == ms[i]);
        merge_keeps_first_value(p, k, i);
    } else {
        merged_keys_are_union(p, k);
        if accumulated(p).contains_key(k) {
            let j = choose|j: int| 0 <= j < p.len() && (#[trigger] p[j]).contains_key(k);
            assert(p[j] == ms[j]);
        }
    }
}

proof fn lemma_unique_lookup(s: Seq<KeyValue>, i: int)
    requires
        keys_unique(s),
        0 <= i < s.len(),
    ensures
        attr_map(s).contains_key(s[i].key@),
        attr_map(s)[s[i].key@] == s[i].value,
    decreases s.len(),
{
    lemma_attr_map_domain(s, s[i].key@);
    if i < s.len() - 1 {
        let p = s.drop_last();
        assert(keys_unique(p)) by {
            assert forall|a: int, b: int| 0 <= a < b < p.len() implies (#[trigger] p[a]).key@ != (#[trigger] p[b]).key@ by {
                assert(p[a] == s[a] && p[b] == s[b]);
            }
        }
        assert(p[i] == s[i]);
        lemma_unique_lookup(p, i);
    }
}

proof fn lemma_replace_map(s: Seq<KeyValue>, i: int, t: Seq<KeyValue>)
    requires
        keys_unique(s),
        0 <= i < s.len(),
        t.len() == s.len(),
        t[i].key@ == s[i].key@,
        forall|j: int| 0 <= j < s.len() && j != i ==> t[j] == s[j],
    ensures
        keys_unique(t),
        attr_map(t) == attr_map(s).insert(s[i].key@, t[i].value),
    decreases s.len(),
{
    if i == s.len() - 1 {
        assert(t.drop_last() == s.drop_last());
        lemma_attr_map_domain(s.drop_last(), s[i].key@);
        assert(attr_map(s).insert(s[i].key@, t[i].value) =~= attr_map(t));
    } else {
        let ps = s.drop_last();
        let pt = t.drop_last();
        assert(keys_unique(ps)) by {
            assert forall|a: int, b: int| 0 <= a < b < ps.len() implies (#[trigger] ps[a]).key@ != (#[trigger] ps[b]).key@ by {
                assert(ps[a] == s[a] && ps[b] == s[b]);
            }
        }
        lemma_replace_map(ps, i, pt);
        assert(s.last() == t.last());
        assert(s.last().key@ != s[i].key@);
        assert(attr_map(s).insert(s[i].key@, t[i].value) =~= attr_map(t));
    }
}

} // verus!
