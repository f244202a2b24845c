//! JSON values.

use vstd::prelude::*;

use crate::text::{same, texts};

verus! {

/// A JSON value. A number is kept as its text.
#[derive(Debug)]
pub enum JsonValue {
    Null,
    Bool(bool),
    Number(String),
    Text(String),
    List(Vec<JsonValue>),
    Object(Vec<(String, JsonValue)>),
}

/// The position of the first entry with the key `k`; the number of entries if there is none.
pub open spec fn entry_position(es: Seq<(String, JsonValue)>, k: Seq<char>, from: int) -> int
    decreases es.len() - from,
{
    if from >= es.len() {
        es.len() as int
    } else if es[from].0@ == k {
        from
    } else {
        entry_position(es, k, from + 1)
    }
}

/// The value of a key of an object.
pub open spec fn json_field(v: JsonValue, k: Seq<char>) -> Option<JsonValue> {
    match v {
        JsonValue::Object(es) => {
            let i = entry_position(es@, k, 0);
            if 0 <= i < es@.len() {
                Some(es@[i].1)
            } else {
                None
            }
        },
        _ => None,
    }
}

/// The text of a value that is one.
pub open spec fn json_text(v: JsonValue) -> Option<Seq<char>> {
    match v {
        JsonValue::Text(s) => Some(s@),
        _ => None,
    }
}

/// The texts among the values.
pub open spec fn json_texts(vs: Seq<JsonValue>) -> Seq<Seq<char>>
    decreases vs.len(),
{
    if vs.len() == 0 {
        Seq::empty()
    } else {
        match json_text(vs.last()) {
            Some(s) => json_texts(vs.drop_last()).push(s),
            None => json_texts(vs.drop_last()),
        }
    }
}

impl JsonValue {
    /// The value of a key of an object.
    pub fn get(&self, k: &str) -> (r: Option<&JsonValue>)
        ensures
            match r {
                Some(v) => json_field(*self, k@) == Some(*v),
                None => json_field(*self, k@) is None,
            },
    {
        match self {
            JsonValue::Object(es) => {
                let mut i: usize = 0;
                while i < es.len()
                    invariant
                        i <= es@.len(),
                        *self == JsonValue::Object(*es),
                        entry_position(es@, k@, 0) == entry_position(es@, k@, i as int),
                    decreases es@.len() - i,
                {
                    if same(es[i].0.as_str(), k) {
                        return Some(&es[i].1);
                    }
                    i = i + 1;
                }
                None
            },
            _ => None,
        }
    }
}

/// The texts among the values.
pub fn texts_in(vs: &Vec<JsonValue>) -> (r: Vec<String>)
    ensures
        texts(r@) == json_texts(vs@),
{
    let mut out: Vec<String> = Vec::new();
    let mut i: usize = 0;
    assert(texts(out@) =~= Seq::<Seq<char>>::empty());
    assert(vs@.subrange(0, 0).len() == 0);
    while i < vs.len()
        invariant
            i <= vs@.len(),
            texts(out@) == json_texts(vs@.subrange(0, i as int)),
        decreases vs@.len() - i,
    {
        let ghost u = vs@.subrange(0, i + 1);
        let ghost before = texts(out@);
        assert(u.drop_last() =~= vs@.subrange(0, i as int));
        assert(u.last() == vs@[i as int]);
        match &vs[i] {
            JsonValue::Text(s) => {
                out.push(s.clone());
                assert(texts(out@) =~= before.push(s@));
            },
            _ => {},
        }
        i = i + 1;
    }
    assert(vs@.subrange(0, vs@.len() as int) =~= vs@);
    out
}

/// The value of a key is that of the first entry with the key.
pub proof fn first_entry_has_the_value(v: JsonValue, es: Vec<(String, JsonValue)>, k: Seq<char>, i: int)
    requires
        v == JsonValue::Object(es),
        0 <= i <= es@.len(),
        forall|j: int| 0 <= j < i ==> (#[trigger] es@[j]).0@ != k,
        i < es@.len() ==> es@[i].0@ == k,
    ensures
        i < es@.len() ==> json_field(v, k) == Some(es@[i].1),
        i == es@.len() ==> json_field(v, k) is None,
{
    lemma_position(es@, k, 0, i);
}

proof fn lemma_position(es: Seq<(String, JsonValue)>, k: Seq<char>, from: int, i: int)
    requires
        0 <= from <= i <= es.len(),
        forall|j: int| from <= j < i ==> (#[trigger] es[j]).0@ != k,
        i < es.len() ==> es[i].0@ == k,
    ensures
        entry_position(es, k, from) == i,
    decreases es.len() - from,
{
    if from < i {
        assert(es[from].0@ != k);
        lemma_position(es, k, from + 1, i);
    }
}

/// Only objects have keys.
pub proof fn other_values_have_no_keys(v: JsonValue, k: Seq<char>)
    requires
        v !is Object,
    ensures
        json_field(v, k) is None,
{
}

/// The texts among values are taken one by one, in their order.
pub proof fn texts_are_taken_one_by_one(a: Seq<JsonValue>, v: JsonValue, b: Seq<JsonValue>)
    ensures
        json_texts(a + seq![v] + b) == json_texts(a) + (match v {
            JsonValue::Text(s) => seq![s@],
            _ => Seq::empty(),
        }) + json_texts(b),
    decreases b.len(),
{
    let w = a + seq![v] + b;
    let own = match v {
        JsonValue::Text(s) => seq![s@],
        _ => Seq::empty(),
    };
    if b.len() == 0 {
        assert(w.drop_last() =~= a);
        assert(w.last() == v);
        assert(json_texts(w) =~= json_texts(a) + own + json_texts(b));
    } else {
        let t = b.drop_last();
        texts_are_taken_one_by_one(a, v, t);
        assert(w.drop_last() =~= a + seq![v] + t);
        assert(w.last() == b.last());
        assert(json_texts(w) =~= json_texts(a) + own + json_texts(b));
    }
}

} // verus!
