//! Attribute maps: the string-to-string decorations of credentials, and the
//! parsing of the key/value pairs that callers hand to a store.
use vstd::prelude::*;
use vstd::string::StrSliceExecFns;

use crate::error::Error;

verus! {

/// The map given by a list of key/value pairs; a later pair overrides an
/// earlier one with the same key.
pub open spec fn map_of_pairs(s: Seq<(Seq<char>, Seq<char>)>) -> Map<Seq<char>, Seq<char>>
    decreases s.len(),
{
    if s.len() == 0 {
        Map::empty()
    } else {
        map_of_pairs(s.drop_last()).insert(s.last().0, s.last().1)
    }
}

/// The text of a list of borrowed key/value pairs.
pub open spec fn pairs_view(s: Seq<(&str, &str)>) -> Seq<(Seq<char>, Seq<char>)> {
    s.map_values(|p: (&str, &str)| (p.0@, p.1@))
}

/// Whether two strings hold the same text.
pub fn same_text(a: &str, b: &str) -> (r: bool)
    ensures
        r == (a@ == b@),
{
    a.to_owned() == b.to_owned()
}

/// A map from owned keys to owned values, keys unique.
pub struct AttrMap {
    entries: Vec<(String, String)>,
}

impl AttrMap {
    /// The keys, in the order they were first inserted.
    pub closed spec fn keys(&self) -> Seq<Seq<char>> {
        self.entries@.map_values(|p: (String, String)| p.0@)
    }

    #[verifier::type_invariant]
    closed spec fn keys_unique(&self) -> bool {
        self.keys().no_duplicates()
    }

    /// The position of a key.
    closed spec fn index_of(&self, k: Seq<char>) -> int {
        choose|i: int| 0 <= i < self.entries@.len() && self.entries@[i].0@ == k
    }

    pub closed spec fn view(&self) -> Map<Seq<char>, Seq<char>> {
        Map::new(
            |k: Seq<char>| exists|i: int| 0 <= i < self.entries@.len() && self.entries@[i].0@ == k,
            |k: Seq<char>| self.entries@[self.index_of(k)].1@,
        )
    }

    proof fn lemma_index(&self, i: int)
        requires
            self.keys().no_duplicates(),
            0 <= i < self.entries@.len(),
        ensures
            self@.contains_key(self.entries@[i].0@),
            self.index_of(self.entries@[i].0@) == i,
            self@[self.entries@[i].0@] == self.entries@[i].1@,
    {
        let k = self.entries@[i].0@;
        assert(self.keys()[i] == k);
        let j = self.index_of(k);
        assert(self.keys()[j] == k);
    }

    proof fn lemma_len(&self)
        requires
            self.keys().no_duplicates(),
        ensures
            self@.dom().finite(),
            self@.len() == self.entries@.len(),
    {
        self.keys().unique_seq_to_set();
        assert(self@.dom() =~= self.keys().to_set()) by {
            assert forall|k: Seq<char>| self@.dom().contains(k) implies self.keys().to_set().contains(k) by {
                let i = choose|i: int| 0 <= i < self.entries@.len() && self.entries@[i].0@ == k;
                assert(self.keys()[i] == k);
            }
            assert forall|k: Seq<char>| self.keys().to_set().contains(k) implies self@.dom().contains(k) by {
                let i = choose|i: int| 0 <= i < self.keys().len() && self.keys()[i] == k;
                assert(self.entries@[i].0@ == k);
            }
        }
    }

    /// An empty map.
    pub fn new() -> (r: AttrMap)
        ensures
            r@ == Map::<Seq<char>, Seq<char>>::empty(),
    {
        let r = AttrMap { entries: Vec::new() };
        assert(r.keys() =~= Seq::<Seq<char>>::empty());
        assert(r@ =~= Map::<Seq<char>, Seq<char>>::empty());
        r
    }

    /// The position of `key`, if present.
    fn find(&self, key: &str) -> (r: Option<usize>)
        ensures
            r is None ==> !self@.contains_key(key@),
            r is Some ==> r->0 < self.entries@.len() && self.entries@[r->0 as int].0@ == key@,
    {
        let mut i: usize = 0;
        while i < self.entries.len()
            invariant
                i <= self.entries@.len(),
                forall|j: int| 0 <= j < i ==> self.entries@[j].0@ != key@,
            decreases self.entries@.len() - i,
        {
            if same_text(self.entries[i].0.as_str(), key) {
                return Some(i);
            }
            i = i + 1;
        }
        None
    }

    /// The value of `key`, if present.
    pub fn get(&self, key: &str) -> (r: Option<&String>)
        ensures
            r is Some <==> self@.contains_key(key@),
            r is Some ==> r->0@ == self@[key@],
    {
        proof {
            use_type_invariant(self);
        }
        match self.find(key) {
            Some(i) => {
                proof {
                    self.lemma_index(i as int);
                }
                Some(&self.entries[i].1)
            },
            None => None,
        }
    }

    /// Whether `key` is present.
    pub fn contains_key(&self, key: &str) -> (r: bool)
        ensures
            r == self@.contains_key(key@),
    {
        proof {
            use_type_invariant(self);
        }
        match self.find(key) {
            Some(i) => {
                proof {
                    self.lemma_index(i as int);
                }
                true
            },
            None => false,
        }
    }

    /// The number of keys.
    pub fn len(&self) -> (r: usize)
        ensures
            self@.dom().finite(),
            r == self@.len(),
    {
        proof {
            use_type_invariant(self);
            self.lemma_len();
        }
        self.entries.len()
    }

    /// Whether there are no keys.
    pub fn is_empty(&self) -> (r: bool)
        ensures
            r == (self@.len() == 0),
    {
        self.len() == 0
    }

    /// Map `key` to `value`, replacing any earlier value of `key`.
    pub fn insert(&mut self, key: String, value: String)
        ensures
            final(self)@ == old(self)@.insert(key@, value@),
    {
        proof {
            use_type_invariant(&*self);
        }
        let ghost pre = *self;
        let found = self.find(key.as_str());
        let mut taken = AttrMap::new();
        std::mem::swap(self, &mut taken);
        let mut entries = taken.entries;
        assert(entries@ == pre.entries@);
        match found {
            Some(i) => {
                let ghost kv = key@;
                let ghost vv = value@;
                proof {
                    pre.lemma_index(i as int);
                }
                entries.set(i, (key, value));
                proof {
                    let e = AttrMap { entries };
                    assert(e.keys() =~= pre.keys().update(i as int, kv));
                    assert(pre.keys()[i as int] == kv);
                    assert(e.keys() =~= pre.keys());
                }
                *self = AttrMap { entries };
                proof {
                    assert(self.keys() =~= pre.keys().update(i as int, kv));
                    assert(pre.keys()[i as int] == kv);
                    assert(self.keys() =~= pre.keys());
                    assert forall|k: Seq<char>| #![auto] self@.dom().contains(k) == pre@.insert(kv, vv).dom().contains(k) by {
                        if k != kv {
                            if pre@.dom().contains(k) {
                                let j = pre.index_of(k);
                                assert(j != i);
                                assert(self.entries@[j].0@ == k);
                            }
                            if self@.dom().contains(k) {
                                let j = choose|j: int| 0 <= j < self.entries@.len() && self.entries@[j].0@ == k;
                                assert(pre.entries@[j].0@ == k);
                            }
                        } else {
                            assert(self.entries@[i as int].0@ == k);
                        }
                    }
                    assert forall|k: Seq<char>| #![auto] self@.dom().contains(k) implies self@[k] == pre@.insert(kv, vv)[k] by {
                        let j = choose|j: int| 0 <= j < self.entries@.len() && self.entries@[j].0@ == k;
                        self.lemma_index(j);
                        if k == kv {
                            assert(self.keys()[j] == self.keys()[i as int]);
                        } else {
                            assert(pre.entries@[j].0@ == k);
                            pre.lemma_index(j);
                        }
                    }
                    assert(self@ =~= pre@.insert(kv, vv));
                }
            },
            None => {
                let ghost kv = key@;
                let ghost vv = value@;
                entries.push((key, value));
                proof {
                    let n = pre.entries@.len() as int;
                    let e = AttrMap { entries };
                    assert(e.keys() =~= pre.keys().push(kv));
                    assert forall|a: int, b: int| 0 <= a < b < e.keys().len() implies e.keys()[a] != e.keys()[b] by {
                        if b == n {
                            assert(pre.entries@[a].0@ == pre.keys()[a]);
                        }
                    }
                }
                *self = AttrMap { entries };
                proof {
                    let n = pre.entries@.len() as int;
                    assert(self.keys() =~= pre.keys().push(kv));
                    assert forall|a: int, b: int| 0 <= a < b < self.keys().len() implies self.keys()[a] != self.keys()[b] by {
                        if b == n {
                            assert(pre.entries@[a].0@ == pre.keys()[a]);
                        }
                    }
                    assert forall|k: Seq<char>| #![auto] self@.dom().contains(k) == pre@.insert(kv, vv).dom().contains(k) by {
                        if k != kv && self@.dom().contains(k) {
                            let j = choose|j: int| 0 <= j < self.entries@.len() && self.entries@[j].0@ == k;
                            assert(pre.entries@[j].0@ == k);
                        }
                        if pre@.dom().contains(k) {
                            let j = choose|j: int| 0 <= j < pre.entries@.len() && pre.entries@[j].0@ == k;
                            assert(self.entries@[j].0@ == k);
                        }
                        if k == kv {
                            assert(self.entries@[n].0@ == k);
                        }
                    }
                    assert forall|k: Seq<char>| #![auto] self@.dom().contains(k) implies self@[k] == pre@.insert(kv, vv)[k] by {
                        let j = choose|j: int| 0 <= j < self.entries@.len() && self.entries@[j].0@ == k;
                        self.lemma_index(j);
                        if j < n {
                            pre.lemma_index(j);
                        }
                    }
                    assert(self@ =~= pre@.insert(kv, vv));
                }
            },
        }
    }
}

/// An allowed key's name and whether its value must be boolean: a leading
/// `*` marks a boolean key and is not part of its name.
pub open spec fn strip_flag(k: Seq<char>) -> (Seq<char>, bool) {
    if k.len() > 0 && k[0] == '*' {
        (k.drop_first(), true)
    } else {
        (k, false)
    }
}

/// Whether `name` is among the allowed keys, and if so whether it is
/// boolean; where a name is listed twice, the later listing counts.
pub open spec fn key_flag(keys: Seq<Seq<char>>, name: Seq<char>) -> Option<bool>
    decreases keys.len(),
{
    if keys.len() == 0 {
        None
    } else if strip_flag(keys.last()).0 == name {
        Some(strip_flag(keys.last()).1)
    } else {
        key_flag(keys.drop_last(), name)
    }
}

/// The text of a list of borrowed strings.
pub open spec fn strs_view(s: Seq<&str>) -> Seq<Seq<char>> {
    s.map_values(|k: &str| k@)
}

/// Whether a value is acceptable for a key with the given flag.
pub open spec fn value_ok(is_bool: bool, v: Seq<char>) -> bool {
    !is_bool || v == "true"@ || v == "false"@
}

/// What parsing the pairs against the allowed keys gives: the map of the
/// pairs, or the first offending key with the reason it is refused.
pub open spec fn parse_outcome(keys: Seq<Seq<char>>, attrs: Seq<(Seq<char>, Seq<char>)>) -> Result<
    Map<Seq<char>, Seq<char>>,
    (Seq<char>, Seq<char>),
>
    decreases attrs.len(),
{
    if attrs.len() == 0 {
        Ok(Map::empty())
    } else {
        match parse_outcome(keys, attrs.drop_last()) {
            Err(e) => Err(e),
            Ok(m) => {
                let (k, v) = attrs.last();
                match key_flag(keys, k) {
                    None => Err((k, "unknown key"@)),
                    Some(b) => if value_ok(b, v) {
                        Ok(m.insert(k, v))
                    } else {
                        Err((k, "must be `true` or `false`"@))
                    },
                }
            },
        }
    }
}

/// The name of an allowed key and whether it is boolean.
fn split_flag(k: &str) -> (r: (&str, bool))
    ensures
        (r.0@, r.1) == strip_flag(k@),
{
    let n = k.unicode_len();
    if n > 0 && k.get_char(0) == '*' {
        (k.substring_char(1, n), true)
    } else {
        (k, false)
    }
}

/// Look `name` up among the allowed keys.
fn lookup_key(keys: &[&str], name: &str) -> (r: Option<bool>)
    ensures
        r == key_flag(strs_view(keys@), name@),
{
    let mut i: usize = keys.len();
    assert(strs_view(keys@).take(i as int) =~= strs_view(keys@));
    while i > 0
        invariant
            i <= keys@.len(),
            key_flag(strs_view(keys@), name@) == key_flag(strs_view(keys@).take(i as int), name@),
        decreases i,
    {
        let (stripped, is_bool) = split_flag(keys[i - 1]);
        let ghost prefix = strs_view(keys@).take(i as int);
        assert(prefix.last() == keys@[i - 1]@);
        assert(prefix.drop_last() =~= strs_view(keys@).take(i - 1));
        if same_text(stripped, name) {
            return Some(is_bool);
        }
        i = i - 1;
    }
    assert(strs_view(keys@).take(0) =~= Seq::<Seq<char>>::empty());
    None
}

/// Parse key/value pairs against the allowed keys, into a map of owned strings.
///
/// A key listed with a leading `*` must have the value `true` or `false`,
/// and is named without the `*`. Absent pairs give an empty map. The first
/// pair whose key is not allowed gives `Invalid(key, "unknown key")`, and
/// the first whose boolean value is neither `true` nor `false` gives
/// `Invalid(key, "must be `true` or `false`")`.
pub fn parse_attributes(keys: &[&str], attrs: Option<&[(&str, &str)]>) -> (r: Result<AttrMap, Error>)
    ensures
        attrs is None ==> r is Ok && r->Ok_0@ == Map::<Seq<char>, Seq<char>>::empty(),
        attrs is Some ==> match parse_outcome(strs_view(keys@), pairs_view(attrs->0@)) {
            Ok(m) => r is Ok && r->Ok_0@ == m,
            Err((k, why)) => r is Err && r->Err_0 is Invalid && r->Err_0->Invalid_0@ == k
                && r->Err_0->Invalid_1@ == why,
        },
{
    let mut result = AttrMap::new();
    let pairs = match attrs {
        None => {
            return Ok(result);
        },
        Some(pairs) => pairs,
    };
    let ghost kv = strs_view(keys@);
    let ghost pv = pairs_view(pairs@);
    let mut i: usize = 0;
    while i < pairs.len()
        invariant
            i <= pairs@.len(),
            attrs == Some(pairs),
            pv == pairs_view(pairs@),
            kv == strs_view(keys@),
            parse_outcome(kv, pv.take(i as int)) == Ok::<Map<Seq<char>, Seq<char>>, (Seq<char>, Seq<char>)>(result@),
        decreases pairs@.len() - i,
    {
        let (key, value) = pairs[i];
        assert(pv.take(i + 1).drop_last() =~= pv.take(i as int));
        assert(pv.take(i + 1).last() == (key@, value@));
        match lookup_key(keys, key) {
            Some(is_bool) => {
                if !is_bool || same_text(value, "true") || same_text(value, "false") {
                    result.insert(key.to_owned(), value.to_owned());
                } else {
                    let why = "must be `true` or `false`".to_owned();
                    proof {
                        assert(!value_ok(is_bool, value@));
                        assert(parse_outcome(kv, pv.take(i + 1)) == Err::<Map<Seq<char>, Seq<char>>, (Seq<char>, Seq<char>)>((key@, why@)));
                        lemma_parse_error_sticks(kv, pv, i as int + 1);
                    }
                    return Err(Error::Invalid(key.to_owned(), why));
                }
            },
            None => {
                proof {
                    lemma_parse_error_sticks(kv, pv, i as int + 1);
                }
                return Err(Error::Invalid(key.to_owned(), "unknown key".to_owned()));
            },
        }
        i = i + 1;
    }
    assert(pv.take(pairs@.len() as int) =~= pv);
    Ok(result)
}

/// Once a prefix of the pairs is refused, so is the whole list, for the same reason.
proof fn lemma_parse_error_sticks(keys: Seq<Seq<char>>, attrs: Seq<(Seq<char>, Seq<char>)>, n: int)
    requires
        0 <= n <= attrs.len(),
        parse_outcome(keys, attrs.take(n)) is Err,
    ensures
        parse_outcome(keys, attrs) == parse_outcome(keys, attrs.take(n)),
    decreases attrs.len() - n,
{
    if n < attrs.len() {
        assert(attrs.take(n + 1).drop_last() =~= attrs.take(n));
        lemma_parse_error_sticks(keys, attrs, n + 1);
    } else {
        assert(attrs.take(n) =~= attrs);
    }
}

/// Convert borrowed key/value pairs to a map of owned strings; a later pair
/// overrides an earlier one with the same key.
pub fn externalize_attributes(attrs: &[(&str, &str)]) -> (r: AttrMap)
    ensures
        r@ == map_of_pairs(pairs_view(attrs@)),
{
    let mut result = AttrMap::new();
    let ghost pv = pairs_view(attrs@);
    let mut i: usize = 0;
    while i < attrs.len()
        invariant
            i <= attrs@.len(),
            pv == pairs_view(attrs@),
            result@ == map_of_pairs(pv.take(i as int)),
        decreases attrs@.len() - i,
    {
        let (key, value) = attrs[i];
        assert(pv.take(i + 1).drop_last() =~= pv.take(i as int));
        result.insert(key.to_owned(), value.to_owned());
        i = i + 1;
    }
    assert(pv.take(attrs@.len() as int) =~= pv);
    result
}

} // verus!
