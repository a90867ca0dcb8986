//! The library's model of the JSON values that flow through the add-in:
//! rows are JSON objects whose fields hold scalars (or, for arrays and
//! objects nested below a row, their compact JSON text). Objects keep
//! their keys in ascending order with no key twice, as
//! `serde_json::Map` does by default.

use vstd::prelude::*;
use crate::text::{chars_of, int_text, int_text_chars, string_of};

verus! {

// ---------------------------------------------------------------------
// Types and views
// ---------------------------------------------------------------------

/// A JSON number, held as the text that `Display` of the number writes.
#[derive(Debug)]
pub struct JsonNumber {
    text: String,
}

/// A JSON value inside a row.
#[derive(Debug)]
pub enum JsonLeaf {
    Null,
    Bool(bool),
    Number(JsonNumber),
    String(String),
    /// An array, or an object below the top level, as its compact JSON text.
    Nested(String),
}

/// A JSON object: fields in ascending key order, no key twice.
#[derive(Debug)]
pub struct JsonObject {
    entries: Vec<(String, JsonLeaf)>,
}

/// A JSON value at the top level, as a batch row is.
#[derive(Debug)]
pub enum JsonValue {
    Object(JsonObject),
    Leaf(JsonLeaf),
}

/// The mathematical value of a `JsonLeaf`.
pub enum LeafV {
    Null,
    Bool(bool),
    Number(Seq<char>),
    Str(Seq<char>),
    Nested(Seq<char>),
}

/// The mathematical value of a `JsonValue`.
pub enum ValueV {
    Object(Seq<(Seq<char>, LeafV)>),
    Leaf(LeafV),
}

impl View for JsonNumber {
    type V = Seq<char>;

    closed spec fn view(&self) -> Seq<char> {
        self.text@
    }
}

impl View for JsonLeaf {
    type V = LeafV;

    open spec fn view(&self) -> LeafV {
        match self {
            JsonLeaf::Null => LeafV::Null,
            JsonLeaf::Bool(b) => LeafV::Bool(*b),
            JsonLeaf::Number(n) => LeafV::Number(n@),
            JsonLeaf::String(s) => LeafV::Str(s@),
            JsonLeaf::Nested(s) => LeafV::Nested(s@),
        }
    }
}

pub open spec fn entry_view(e: (String, JsonLeaf)) -> (Seq<char>, LeafV) {
    (e.0@, e.1@)
}

pub open spec fn entries_view(es: Seq<(String, JsonLeaf)>) -> Seq<(Seq<char>, LeafV)> {
    es.map_values(|e: (String, JsonLeaf)| entry_view(e))
}

impl View for JsonObject {
    type V = Seq<(Seq<char>, LeafV)>;

    closed spec fn view(&self) -> Seq<(Seq<char>, LeafV)> {
        entries_view(self.entries@)
    }
}

impl View for JsonValue {
    type V = ValueV;

    open spec fn view(&self) -> ValueV {
        match self {
            JsonValue::Object(o) => ValueV::Object(o@),
            JsonValue::Leaf(l) => ValueV::Leaf(l@),
        }
    }
}

pub open spec fn values_view(vs: Seq<JsonValue>) -> Seq<ValueV> {
    vs.map_values(|v: JsonValue| v@)
}

// ---------------------------------------------------------------------
// Key order
// ---------------------------------------------------------------------

/// The order of `String`: lexicographic by character, which is the order
/// of the UTF-8 bytes.
pub open spec fn chars_lt(a: Seq<char>, b: Seq<char>) -> bool
    decreases a.len(),
{
    if a.len() == 0 {
        b.len() > 0
    } else if b.len() == 0 {
        false
    } else if a[0] < b[0] {
        true
    } else if a[0] == b[0] {
        chars_lt(a.drop_first(), b.drop_first())
    } else {
        false
    }
}

/// Keys strictly ascending from each field to the next.
pub open spec fn sorted_keys(es: Seq<(Seq<char>, LeafV)>) -> bool {
    forall|i: int| 0 <= i < es.len() - 1 ==> chars_lt(#[trigger] es[i].0, es[i + 1].0)
}

pub proof fn lemma_chars_lt_irreflexive(a: Seq<char>)
    ensures
        !chars_lt(a, a),
    decreases a.len(),
{
    if a.len() > 0 {
        lemma_chars_lt_irreflexive(a.drop_first());
    }
}

pub proof fn lemma_chars_lt_asymmetric(a: Seq<char>, b: Seq<char>)
    requires
        chars_lt(a, b),
    ensures
        !chars_lt(b, a),
    decreases a.len(),
{
    if a.len() > 0 && b.len() > 0 && a[0] == b[0] {
        lemma_chars_lt_asymmetric(a.drop_first(), b.drop_first());
    }
}

pub proof fn lemma_chars_lt_total(a: Seq<char>, b: Seq<char>)
    requires
        a != b,
    ensures
        chars_lt(a, b) || chars_lt(b, a),
    decreases a.len(),
{
    if a.len() > 0 && b.len() > 0 && a[0] == b[0] {
        if a.drop_first() == b.drop_first() {
            assert(a =~= seq![a[0]] + a.drop_first());
            assert(b =~= seq![b[0]] + b.drop_first());
        }
        lemma_chars_lt_total(a.drop_first(), b.drop_first());
    } else if a.len() == 0 && b.len() == 0 {
        assert(a =~= b);
    }
}

pub proof fn lemma_chars_lt_transitive(a: Seq<char>, b: Seq<char>, c: Seq<char>)
    requires
        chars_lt(a, b),
        chars_lt(b, c),
    ensures
        chars_lt(a, c),
    decreases a.len(),
{
    if a.len() > 0 && b.len() > 0 && c.len() > 0 && a[0] == b[0] && b[0] == c[0] {
        lemma_chars_lt_transitive(a.drop_first(), b.drop_first(), c.drop_first());
    }
}

/// `a < b` on strings, as `String` orders them.
pub fn chars_lt_exec(a: &[char], b: &[char]) -> (r: bool)
    ensures
        r == chars_lt(a@, b@),
{
    let mut i: usize = 0;
    assert(a@.skip(0) =~= a@);
    assert(b@.skip(0) =~= b@);
    while i < a.len() && i < b.len() && a[i] == b[i]
        invariant
            i <= a@.len(),
            i <= b@.len(),
            chars_lt(a@, b@) == chars_lt(a@.skip(i as int), b@.skip(i as int)),
        decreases a@.len() - i,
    {
        assert(a@.skip(i as int).drop_first() =~= a@.skip(i + 1));
        assert(b@.skip(i as int).drop_first() =~= b@.skip(i + 1));
        i = i + 1;
    }
    if i == a.len() {
        i < b.len()
    } else if i == b.len() {
        false
    } else {
        a[i] < b[i]
    }
}

/// `a < b` on strings.
pub fn str_lt(a: &str, b: &str) -> (r: bool)
    ensures
        r == chars_lt(a@, b@),
{
    let x = chars_of(a);
    let y = chars_of(b);
    chars_lt_exec(x.as_slice(), y.as_slice())
}

// ---------------------------------------------------------------------
// Objects as sorted maps
// ---------------------------------------------------------------------

/// `serde_json::Map::insert`: a key already there gets the new value in
/// its place; a new key goes where the order puts it.
pub open spec fn entries_insert(es: Seq<(Seq<char>, LeafV)>, k: Seq<char>, v: LeafV) -> Seq<
    (Seq<char>, LeafV),
>
    decreases es.len(),
{
    if es.len() == 0 {
        seq![(k, v)]
    } else if es[0].0 == k {
        es.update(0, (k, v))
    } else if chars_lt(k, es[0].0) {
        seq![(k, v)] + es
    } else {
        seq![es[0]] + entries_insert(es.drop_first(), k, v)
    }
}

/// The value under key `k`.
pub open spec fn entries_get(es: Seq<(Seq<char>, LeafV)>, k: Seq<char>) -> Option<LeafV>
    decreases es.len(),
{
    if es.len() == 0 {
        None
    } else if es[0].0 == k {
        Some(es[0].1)
    } else {
        entries_get(es.drop_first(), k)
    }
}

pub open spec fn keys_of(es: Seq<(Seq<char>, LeafV)>) -> Seq<Seq<char>> {
    es.map_values(|e: (Seq<char>, LeafV)| e.0)
}

impl JsonObject {
    #[verifier::type_invariant]
    spec fn well_formed(self) -> bool {
        sorted_keys(entries_view(self.entries@))
    }

    /// An object with no fields.
    pub fn new() -> (o: JsonObject)
        ensures
            o@ == Seq::<(Seq<char>, LeafV)>::empty(),
    {
        let o = JsonObject { entries: Vec::new() };
        assert(entries_view(o.entries@) =~= Seq::<(Seq<char>, LeafV)>::empty());
        o
    }

    /// The number of fields.
    pub fn len(&self) -> (n: usize)
        ensures
            n == self@.len(),
            sorted_keys(self@),
    {
        proof {
            use_type_invariant(self);
        }
        self.entries.len()
    }

    /// The key of field `i`.
    pub fn key_at(&self, i: usize) -> (k: &String)
        requires
            i < self@.len(),
        ensures
            k@ == self@[i as int].0,
    {
        &self.entries[i].0
    }

    /// The value of field `i`.
    pub fn value_at(&self, i: usize) -> (v: &JsonLeaf)
        requires
            i < self@.len(),
        ensures
            v@ == self@[i as int].1,
    {
        &self.entries[i].1
    }

    /// Sets the value under `key`, as `serde_json::Map::insert` does.
    pub fn insert(&mut self, key: String, value: JsonLeaf)
        ensures
            final(self)@ == entries_insert(old(self)@, key@, value@),
            sorted_keys(final(self)@),
    {
        proof {
            use_type_invariant(&*self);
        }
        let ghost es = self@;
        let kc = chars_of(key.as_str());
        let n = self.entries.len();
        let mut i: usize = 0;
        assert(es.skip(0) =~= es);
        assert(es.take(0) =~= Seq::<(Seq<char>, LeafV)>::empty());
        while i < n
            invariant
                n == es.len(),
                es == entries_view(self.entries@),
                sorted_keys(es),
                kc@ == key@,
                i <= n,
                entries_insert(es, key@, value@) == es.take(i as int) + entries_insert(
                    es.skip(i as int),
                    key@,
                    value@,
                ),
                forall|j: int| 0 <= j < i ==> chars_lt(#[trigger] es[j].0, key@),
            ensures
                i <= n,
                i == n || !chars_lt(es[i as int].0, key@),
                entries_insert(es, key@, value@) == es.take(i as int) + entries_insert(
                    es.skip(i as int),
                    key@,
                    value@,
                ),
                forall|j: int| 0 <= j < i ==> chars_lt(#[trigger] es[j].0, key@),
            decreases n - i,
        {
            let ki = chars_of(self.entries[i].0.as_str());
            if chars_lt_exec(ki.as_slice(), kc.as_slice()) {
                proof {
                    lemma_chars_lt_asymmetric(es[i as int].0, key@);
                    lemma_chars_lt_irreflexive(key@);
                    let rest = es.skip(i as int);
                    assert(rest[0] == es[i as int]);
                    assert(rest.drop_first() =~= es.skip(i + 1));
                    assert(es.take(i + 1) =~= es.take(i as int) + seq![es[i as int]]);
                }
                i = i + 1;
            } else {
                break;
            }
        }
        let ghost v = value@;
        proof {
            assert(es.take(n as int) =~= es);
            assert(es.skip(n as int) =~= Seq::<(Seq<char>, LeafV)>::empty());
        }
        if i < n && self.entries[i].0 == key {
            let mut entries = Vec::new();
            std::mem::swap(&mut entries, &mut self.entries);
            entries.set(i, (key, value));
            proof {
                assert(es.skip(i as int)[0].0 == key@);
                assert(entries_view(entries@) =~= es.take(i as int) + es.skip(i as int).update(
                    0,
                    (key@, v),
                ));
                assert(sorted_keys(entries_view(entries@))) by {
                    let ns = entries_view(entries@);
                    assert forall|j: int| 0 <= j < ns.len() - 1 implies chars_lt(
                        #[trigger] ns[j].0,
                        ns[j + 1].0,
                    ) by {
                        assert(es[j].0 == ns[j].0);
                        assert(es[j + 1].0 == ns[j + 1].0);
                    }
                };
            }
            self.entries = entries;
        } else {
            proof {
                if i < n {
                    lemma_chars_lt_total(key@, es[i as int].0);
                    assert(es.skip(i as int)[0] == es[i as int]);
                }
            }
            let mut entries = Vec::new();
            std::mem::swap(&mut entries, &mut self.entries);
            entries.insert(i, (key, value));
            proof {
                assert(entries_view(entries@) =~= es.take(i as int) + seq![(key@, v)] + es.skip(
                    i as int,
                ));
                assert(sorted_keys(entries_view(entries@))) by {
                    let ns = entries_view(entries@);
                    assert forall|j: int| 0 <= j < ns.len() - 1 implies chars_lt(
                        #[trigger] ns[j].0,
                        ns[j + 1].0,
                    ) by {
                        if j < i - 1 {
                            assert(ns[j] == es[j] && ns[j + 1] == es[j + 1]);
                        } else if j == i - 1 {
                            assert(ns[j] == es[j]);
                        } else if j == i {
                            assert(ns[j + 1] == es[i as int]);
                        } else {
                            assert(ns[j] == es[j - 1] && ns[j + 1] == es[j]);
                        }
                    }
                };
            }
            self.entries = entries;
        }
    }

    /// The value under `key`, if there is one.
    pub fn get(&self, key: &String) -> (r: Option<&JsonLeaf>)
        ensures
            match r {
                Some(v) => entries_get(self@, key@) == Some(v@),
                None => entries_get(self@, key@) is None,
            },
    {
        let ghost es = self@;
        let n = self.entries.len();
        let mut i: usize = 0;
        assert(es.skip(0) =~= es);
        while i < n
            invariant
                n == es.len(),
                es == entries_view(self.entries@),
                i <= n,
                entries_get(es, key@) == entries_get(es.skip(i as int), key@),
            decreases n - i,
        {
            assert(es.skip(i as int)[0] == es[i as int]);
            if self.entries[i].0 == *key {
                return Some(&self.entries[i].1);
            }
            assert(es.skip(i as int).drop_first() =~= es.skip(i + 1));
            i = i + 1;
        }
        None
    }

    /// A field-for-field copy.
    pub fn copy(&self) -> (o: JsonObject)
        ensures
            o@ == self@,
    {
        proof {
            use_type_invariant(self);
        }
        let mut entries: Vec<(String, JsonLeaf)> = Vec::new();
        let mut i: usize = 0;
        while i < self.entries.len()
            invariant
                i <= self.entries@.len(),
                entries_view(entries@) == entries_view(self.entries@).take(i as int),
            decreases self.entries@.len() - i,
        {
            let k = self.entries[i].0.clone();
            let v = self.entries[i].1.copy();
            let ghost before = entries_view(entries@);
            entries.push((k, v));
            assert(entries_view(entries@) =~= before.push((k@, v@)));
            assert(entries_view(self.entries@).take(i + 1) =~= before.push((k@, v@)));
            i = i + 1;
        }
        assert(entries_view(self.entries@).take(self.entries@.len() as int) =~= entries_view(
            self.entries@,
        ));
        JsonObject { entries }
    }
}

impl JsonNumber {
    /// The number `n`, held as its decimal text.
    pub fn from_i64(n: i64) -> (r: JsonNumber)
        ensures
            r@ == int_text(n as int),
    {
        let cs = int_text_chars(n);
        JsonNumber { text: string_of(cs.as_slice()) }
    }

    /// A number held as the text that `Display` of the number writes; the
    /// text is kept as given.
    pub fn from_text(text: String) -> (r: JsonNumber)
        ensures
            r@ == text@,
    {
        JsonNumber { text }
    }

    /// The text of the number.
    pub fn text(&self) -> (t: &String)
        ensures
            t@ == self@,
    {
        &self.text
    }

    pub fn copy(&self) -> (r: JsonNumber)
        ensures
            r@ == self@,
    {
        JsonNumber { text: self.text.clone() }
    }
}

impl JsonLeaf {
    pub fn copy(&self) -> (r: JsonLeaf)
        ensures
            r@ == self@,
    {
        match self {
            JsonLeaf::Null => JsonLeaf::Null,
            JsonLeaf::Bool(b) => JsonLeaf::Bool(*b),
            JsonLeaf::Number(n) => JsonLeaf::Number(n.copy()),
            JsonLeaf::String(s) => JsonLeaf::String(s.clone()),
            JsonLeaf::Nested(s) => JsonLeaf::Nested(s.clone()),
        }
    }
}

impl JsonValue {
    pub fn copy(&self) -> (r: JsonValue)
        ensures
            r@ == self@,
    {
        match self {
            JsonValue::Object(o) => JsonValue::Object(o.copy()),
            JsonValue::Leaf(l) => JsonValue::Leaf(l.copy()),
        }
    }
}

/// A value-for-value copy of `rows`.
pub fn copy_values(rows: &Vec<JsonValue>) -> (r: Vec<JsonValue>)
    ensures
        values_view(r@) == values_view(rows@),
{
    let mut out: Vec<JsonValue> = Vec::new();
    let mut i: usize = 0;
    while i < rows.len()
        invariant
            i <= rows@.len(),
            values_view(out@) == values_view(rows@).take(i as int),
        decreases rows@.len() - i,
    {
        let v = rows[i].copy();
        let ghost before = values_view(out@);
        out.push(v);
        assert(values_view(out@) =~= before.push(v@));
        assert(values_view(rows@).take(i + 1) =~= before.push(v@));
        i = i + 1;
    }
    assert(values_view(rows@).take(rows@.len() as int) =~= values_view(rows@));
    out
}

} // verus!
