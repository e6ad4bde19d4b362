//! JSON tools: pretty-printing, minifying, validating, sorting object keys
//! and reading the value at a dotted path. serde_json reads and prints the
//! text; the tools work on `JsonValue`.
use vstd::prelude::*;
use crate::num::{decimal, parse_usize, parse_usize_chars, push_decimal};
use crate::search::find_in_files::{split_at_char, split_pieces};
use crate::text::{chars_eq, push_str, seqs_of, starts_with, str_chars, str_eq, string_from_chars};

verus! {

#[verifier::external_type_specification]
#[verifier::external_body]
pub struct ExSerdeJsonValue(serde_json::Value);

/// A JSON document as the tools read it. A number keeps the text that
/// serde_json prints for it; an object keeps its entries in order.
#[derive(Debug, PartialEq)]
pub enum JsonValue {
    Null,
    Bool(bool),
    Number(String),
    Str(String),
    Array(Vec<JsonValue>),
    Object(Vec<(String, JsonValue)>),
}

/// The mathematical model of a `JsonValue`: texts as character sequences.
pub enum JsonSpec {
    Null,
    Bool(bool),
    Number(Seq<char>),
    Str(Seq<char>),
    Array(Seq<JsonSpec>),
    Object(Seq<(Seq<char>, JsonSpec)>),
}

/// The model of a value.
pub open spec fn json_spec(v: JsonValue) -> JsonSpec
    decreases v,
{
    match v {
        JsonValue::Null => JsonSpec::Null,
        JsonValue::Bool(b) => JsonSpec::Bool(b),
        JsonValue::Number(n) => JsonSpec::Number(n@),
        JsonValue::Str(t) => JsonSpec::Str(t@),
        JsonValue::Array(items) => JsonSpec::Array(
            Seq::new(
                items@.len(),
                |i: int|
                    if 0 <= i < items@.len() {
                        json_spec(items@[i])
                    } else {
                        JsonSpec::Null
                    },
            ),
        ),
        JsonValue::Object(es) => JsonSpec::Object(
            Seq::new(
                es@.len(),
                |i: int|
                    if 0 <= i < es@.len() {
                        (es@[i].0@, json_spec(es@[i].1))
                    } else {
                        (Seq::<char>::empty(), JsonSpec::Null)
                    },
            ),
        ),
    }
}

impl View for JsonValue {
    type V = JsonSpec;

    open spec fn view(&self) -> JsonSpec {
        json_spec(*self)
    }
}

// ---------------------------------------------------------------------------
// Sorting object keys
// ---------------------------------------------------------------------------

/// Whether key `a` comes before key `b`: compared character by character,
/// as `str` orders them.
pub open spec fn key_lt(a: Seq<char>, b: Seq<char>) -> bool
    decreases a.len(),
{
    if b.len() == 0 {
        false
    } else if a.len() == 0 {
        true
    } else if a[0] != b[0] {
        a[0] < b[0]
    } else {
        key_lt(a.drop_first(), b.drop_first())
    }
}

/// An entry put into a list sorted by key: after the smaller keys; an entry
/// with the same key is replaced.
pub open spec fn insert_entry(s: Seq<(Seq<char>, JsonSpec)>, k: Seq<char>, v: JsonSpec) -> Seq<
    (Seq<char>, JsonSpec),
>
    decreases s.len(),
{
    if s.len() == 0 {
        seq![(k, v)]
    } else if key_lt(s[0].0, k) {
        seq![s[0]] + insert_entry(s.drop_first(), k, v)
    } else if s[0].0 == k {
        seq![(k, v)] + s.drop_first()
    } else {
        seq![(k, v)] + s
    }
}

/// The entries put one after another into a sorted list: sorted by key,
/// and of equal keys the last one kept (as collecting into a `BTreeMap`
/// does).
pub open spec fn sorted_entries(es: Seq<(Seq<char>, JsonSpec)>) -> Seq<(Seq<char>, JsonSpec)>
    decreases es.len(),
{
    if es.len() == 0 {
        Seq::empty()
    } else {
        insert_entry(sorted_entries(es.drop_last()), es.last().0, es.last().1)
    }
}

/// A value with the keys of every object in it sorted (see
/// `sorted_entries`), at every depth.
pub open spec fn sorted_spec(v: JsonSpec) -> JsonSpec
    decreases v,
{
    match v {
        JsonSpec::Array(items) => JsonSpec::Array(
            Seq::new(
                items.len(),
                |i: int|
                    if 0 <= i < items.len() {
                        sorted_spec(items[i])
                    } else {
                        JsonSpec::Null
                    },
            ),
        ),
        JsonSpec::Object(es) => JsonSpec::Object(sorted_entries(sorted_members(es))),
        _ => v,
    }
}

/// An object's entries, each value with its keys sorted (see
/// `sorted_spec`), in their order.
pub open spec fn sorted_members(es: Seq<(Seq<char>, JsonSpec)>) -> Seq<(Seq<char>, JsonSpec)>
    decreases es,
{
    Seq::new(
        es.len(),
        |i: int|
            if 0 <= i < es.len() {
                (es[i].0, sorted_spec(es[i].1))
            } else {
                (Seq::<char>::empty(), JsonSpec::Null)
            },
    )
}

/// The model of a list of object entries (as `json_spec` gives it).
pub open spec fn entries_view(es: Seq<(String, JsonValue)>) -> Seq<(Seq<char>, JsonSpec)> {
    Seq::new(
        es.len(),
        |i: int|
            if 0 <= i < es.len() {
                (es[i].0@, json_spec(es[i].1))
            } else {
                (Seq::<char>::empty(), JsonSpec::Null)
            },
    )
}

/// Whether key `a` comes before key `b` (see `key_lt`).
fn key_less(a: &str, b: &str) -> (r: bool)
    ensures
        r == key_lt(a@, b@),
{
    let x = str_chars(a);
    let y = str_chars(b);
    let mut i: usize = 0;
    assert(a@.skip(0) =~= a@);
    assert(b@.skip(0) =~= b@);
    loop
        invariant
            i <= x@.len(),
            i <= y@.len(),
            x@ == a@,
            y@ == b@,
            key_lt(a@, b@) == key_lt(a@.skip(i as int), b@.skip(i as int)),
        decreases x@.len() - i,
    {
        if i >= y.len() {
            return false;
        }
        if i >= x.len() {
            return true;
        }
        if x[i] != y[i] {
            return x[i] < y[i];
        }
        proof {
            assert(a@.skip(i as int).drop_first() =~= a@.skip(i + 1));
            assert(b@.skip(i as int).drop_first() =~= b@.skip(i + 1));
        }
        i += 1;
    }
}

/// Inserting past entries whose keys come first.
proof fn lemma_insert_past(s: Seq<(Seq<char>, JsonSpec)>, k: Seq<char>, v: JsonSpec, j: int)
    requires
        0 <= j <= s.len(),
        forall|t: int| 0 <= t < j ==> key_lt(#[trigger] s[t].0, k),
    ensures
        insert_entry(s, k, v) == s.take(j) + insert_entry(s.skip(j), k, v),
    decreases j,
{
    if j == 0 {
        assert(s.skip(0) =~= s);
        assert(s.take(0) + insert_entry(s, k, v) =~= insert_entry(s, k, v));
    } else {
        let r = s.drop_first();
        assert forall|t: int| 0 <= t < j - 1 implies key_lt(#[trigger] r[t].0, k) by {
            assert(r[t] == s[t + 1]);
        }
        lemma_insert_past(r, k, v, j - 1);
        assert(key_lt(s[0].0, k));
        assert(r.skip(j - 1) =~= s.skip(j));
        assert(seq![s[0]] + (r.take(j - 1) + insert_entry(s.skip(j), k, v)) =~= s.take(j) + insert_entry(
            s.skip(j),
            k,
            v,
        ));
    }
}

/// Puts an entry into entries sorted by key (see `insert_entry`).
fn insert_sorted(acc: &mut Vec<(String, JsonValue)>, k: String, v: JsonValue)
    ensures
        entries_view(final(acc)@) == insert_entry(entries_view(old(acc)@), k@, v@),
{
    let ghost s = entries_view(acc@);
    let mut j: usize = 0;
    while j < acc.len()
        invariant
            j <= acc@.len(),
            s == entries_view(acc@),
            forall|t: int| 0 <= t < j ==> key_lt(#[trigger] s[t].0, k@),
        ensures
            j <= acc@.len(),
            s == entries_view(acc@),
            forall|t: int| 0 <= t < j ==> key_lt(#[trigger] s[t].0, k@),
            j < acc@.len() ==> !key_lt(s[j as int].0, k@),
        decreases acc@.len() - j,
    {
        assert(s[j as int].0 == acc@[j as int].0@);
        if !key_less(acc[j].0.as_str(), k.as_str()) {
            break;
        }
        j += 1;
    }
    proof {
        lemma_insert_past(s, k@, v@, j as int);
    }
    let ghost kv = (k@, v@);
    if j < acc.len() && str_eq(acc[j].0.as_str(), k.as_str()) {
        proof {
            assert(s.skip(j as int)[0] == s[j as int]);
            assert(s.skip(j as int).drop_first() =~= s.skip(j + 1));
        }
        acc.remove(j);
        acc.insert(j, (k, v));
        proof {
            assert(entries_view(acc@) =~= s.take(j as int) + (seq![kv] + s.skip(j + 1)));
        }
    } else {
        proof {
            if j < s.len() {
                assert(s.skip(j as int)[0] == s[j as int]);
            } else {
                assert(s.skip(j as int) =~= Seq::<(Seq<char>, JsonSpec)>::empty());
            }
        }
        acc.insert(j, (k, v));
        proof {
            assert(entries_view(acc@) =~= s.take(j as int) + (seq![kv] + s.skip(j as int)));
        }
    }
}

/// The value with the keys of every object in it sorted (see
/// `sorted_spec`).
pub fn sort_value(value: &JsonValue) -> (r: JsonValue)
    ensures
        r@ == sorted_spec(value@),
    decreases value,
{
    match value {
        JsonValue::Null => {
            JsonValue::Null
        },
        JsonValue::Bool(b) => {
            JsonValue::Bool(*b)
        },
        JsonValue::Number(n) => {
            let c = n.clone();
            assert(c@ == n@);
            JsonValue::Number(c)
        },
        JsonValue::Str(t) => {
            let c = t.clone();
            assert(c@ == t@);
            JsonValue::Str(c)
        },
        JsonValue::Array(items) => {
            let mut out: Vec<JsonValue> = Vec::new();
            let mut i: usize = 0;
            while i < items.len()
                invariant
                    *value == JsonValue::Array(*items),
                    i <= items@.len(),
                    out@.len() == i,
                    forall|t: int| 0 <= t < i ==> json_spec(#[trigger] out@[t]) == sorted_spec(json_spec(items@[t])),
                decreases items@.len() - i,
            {
                proof {
                    assert(decreases_to!(*value => value->Array_0));
                    assert(decreases_to!(*items => items@));
                    assert(decreases_to!(items@ => items@[i as int]));
                    assert(decreases_to!(value => items@[i as int]));
                }
                let e = sort_value(&items[i]);
                out.push(e);
                i += 1;
            }
            proof {
                let a = json_spec(JsonValue::Array(out));
                let b = sorted_spec(json_spec(*value));
                assert(a->Array_0 =~= b->Array_0);
                assert(a == b);
            }
            JsonValue::Array(out)
        },
        JsonValue::Object(es) => {
            let ghost mapped = Seq::new(
                es@.len(),
                |t: int| (es@[t].0@, sorted_spec(json_spec(es@[t].1))),
            );
            let mut acc: Vec<(String, JsonValue)> = Vec::new();
            let mut i: usize = 0;
            proof {
                assert(entries_view(acc@) =~= sorted_entries(mapped.take(0)));
            }
            while i < es.len()
                invariant
                    *value == JsonValue::Object(*es),
                    i <= es@.len(),
                    mapped.len() == es@.len(),
                    forall|t: int| 0 <= t < es@.len() ==> #[trigger] mapped[t] == (es@[t].0@, sorted_spec(json_spec(es@[t].1))),
                    entries_view(acc@) == sorted_entries(mapped.take(i as int)),
                decreases es@.len() - i,
            {
                let k = es[i].0.clone();
                proof {
                    assert(decreases_to!(*value => value->Object_0));
                    assert(decreases_to!(*es => es@));
                    assert(decreases_to!(es@ => es@[i as int]));
                    assert(decreases_to!(es@[i as int] => es@[i as int].1));
                    assert(decreases_to!(value => es@[i as int].1));
                }
                let v = sort_value(&es[i].1);
                insert_sorted(&mut acc, k, v);
                proof {
                    assert(mapped.take(i + 1).drop_last() =~= mapped.take(i as int));
                    assert(mapped.take(i + 1).last() == mapped[i as int]);
                }
                i += 1;
            }
            proof {
                assert(mapped.take(es@.len() as int) =~= mapped);
                let inner = json_spec(*value)->Object_0;
                assert(sorted_members(inner) =~= mapped);
                assert(json_spec(*value) == JsonSpec::Object(inner));
                assert(json_spec(JsonValue::Object(acc))->Object_0 =~= entries_view(acc@));
                assert(json_spec(JsonValue::Object(acc)) == sorted_spec(value@));
            }
            JsonValue::Object(acc)
        },
    }
}

// ---------------------------------------------------------------------------
// Following a dotted path
// ---------------------------------------------------------------------------

/// What `format!("{:?}", s)` gives for a string slice.
pub uninterp spec fn str_debug(s: Seq<char>) -> Seq<char>;

/// A value as `{:?}` prints a `serde_json::Value` that is no array or
/// object.
pub open spec fn scalar_debug(v: JsonSpec) -> Seq<char> {
    match v {
        JsonSpec::Null => "Null"@,
        JsonSpec::Bool(b) => if b {
            "Bool(true)"@
        } else {
            "Bool(false)"@
        },
        JsonSpec::Number(n) => "Number("@ + n + ")"@,
        JsonSpec::Str(t) => "String("@ + str_debug(t) + ")"@,
        _ => Seq::empty(),
    }
}

/// The index of the first entry with key `k`, if there is one.
pub open spec fn entry_index(es: Seq<(Seq<char>, JsonSpec)>, k: Seq<char>) -> Option<int>
    decreases es.len(),
{
    if es.len() == 0 {
        None
    } else if es[0].0 == k {
        Some(0)
    } else {
        match entry_index(es.drop_first(), k) {
            Some(j) => Some(j + 1),
            None => None,
        }
    }
}

/// One step of a path: an object's entry with that key, or an array's
/// element at that index (as `str::parse::<usize>` reads it); else the
/// error the tools report.
pub open spec fn path_step(v: JsonSpec, seg: Seq<char>) -> Result<JsonSpec, Seq<char>> {
    match v {
        JsonSpec::Object(es) => match entry_index(es, seg) {
            Some(j) => Ok(es[j].1),
            None => Err("Key '"@ + seg + "' not found"@),
        },
        JsonSpec::Array(items) => match parse_usize(seg) {
            None => Err("Invalid array index '"@ + seg + "'"@),
            Some(k) => if k < items.len() {
                Ok(items[k as int])
            } else {
                Err(
                    "Array index "@ + decimal(k as nat) + " out of bounds (length "@ + decimal(items.len())
                        + ")"@,
                )
            },
        },
        _ => Err("Cannot index into "@ + scalar_debug(v) + " with '"@ + seg + "'"@),
    }
}

/// The path's segments from the `i`-th on, followed from `v`.
pub open spec fn walk_path(v: JsonSpec, segs: Seq<Seq<char>>, i: int) -> Result<JsonSpec, Seq<char>>
    decreases segs.len() - i,
{
    if i >= segs.len() || i < 0 {
        Ok(v)
    } else {
        match path_step(v, segs[i]) {
            Ok(w) => walk_path(w, segs, i + 1),
            Err(m) => Err(m),
        }
    }
}

/// The value at a dotted path such as `data.users.0.name`: the whole value
/// for an empty path, else each `.`-separated segment followed in turn.
pub open spec fn resolved(v: JsonSpec, path: Seq<char>) -> Result<JsonSpec, Seq<char>> {
    if path.len() == 0 {
        Ok(v)
    } else {
        walk_path(v, split_at_char(path, '.'), 0)
    }
}

/// `entry_index` finds the first entry with the key.
proof fn lemma_entry_index(es: Seq<(Seq<char>, JsonSpec)>, k: Seq<char>, j: int)
    requires
        0 <= j <= es.len(),
        forall|t: int| 0 <= t < j ==> (#[trigger] es[t]).0 != k,
    ensures
        j < es.len() && es[j].0 == k ==> entry_index(es, k) == Some(j),
        j == es.len() ==> entry_index(es, k) is None,
    decreases j,
{
    if j > 0 {
        let r = es.drop_first();
        assert forall|t: int| 0 <= t < j - 1 implies (#[trigger] r[t]).0 != k by {
            assert(r[t] == es[t + 1]);
        }
        lemma_entry_index(r, k, j - 1);
        assert(es[0].0 != k);
        if j < es.len() {
            assert(r[j - 1] == es[j]);
        }
    } else if j == es.len() {
        assert(entry_index(es, k) is None);
    }
}

/// A value that is no array or object as `{:?}` prints it (see
/// `scalar_debug`).
fn scalar_debug_text(v: &JsonValue) -> (r: String)
    requires
        !(v is Array),
        !(v is Object),
    ensures
        r@ == scalar_debug(v@),
{
    let mut m = String::new();
    match v {
        JsonValue::Null => push_str(&mut m, "Null"),
        JsonValue::Bool(b) => if *b {
            push_str(&mut m, "Bool(true)")
        } else {
            push_str(&mut m, "Bool(false)")
        },
        JsonValue::Number(n) => {
            push_str(&mut m, "Number(");
            push_str(&mut m, n.as_str());
            push_str(&mut m, ")");
        },
        JsonValue::Str(t) => {
            push_str(&mut m, "String(");
            let d = debug_str(t.as_str());
            push_str(&mut m, d.as_str());
            push_str(&mut m, ")");
        },
        _ => {},
    }
    proof {
        assert(Seq::<char>::empty() + "Null"@ =~= "Null"@);
        assert(Seq::<char>::empty() + "Bool(true)"@ =~= "Bool(true)"@);
        assert(Seq::<char>::empty() + "Bool(false)"@ =~= "Bool(false)"@);
        assert(Seq::<char>::empty() + "Number("@ =~= "Number("@);
        assert(Seq::<char>::empty() + "String("@ =~= "String("@);
    }
    m
}

/// One step of a path (see `path_step`).
fn path_step_exec<'a>(cur: &'a JsonValue, seg: &[char]) -> (r: Result<&'a JsonValue, String>)
    ensures
        match path_step(cur@, seg@) {
            Ok(t) => r is Ok && r->Ok_0@ == t,
            Err(m) => r is Err && r->Err_0@ == m,
        },
{
    match cur {
        JsonValue::Object(es) => {
            let ghost ev = entries_view(es@);
            proof {
                assert(cur@->Object_0 =~= ev);
                assert(cur@ == JsonSpec::Object(ev));
            }
            let mut j: usize = 0;
            while j < es.len()
                invariant
                    j <= es@.len(),
                    ev == entries_view(es@),
                    cur@ == JsonSpec::Object(ev),
                    forall|t: int| 0 <= t < j ==> (#[trigger] ev[t]).0 != seg@,
                decreases es@.len() - j,
            {
                let kc = str_chars(es[j].0.as_str());
                proof {
                    assert(ev[j as int] == (es@[j as int].0@, json_spec(es@[j as int].1)));
                }
                if chars_eq(kc.as_slice(), seg) {
                    proof {
                        lemma_entry_index(ev, seg@, j as int);
                    }
                    return Ok(&es[j].1);
                }
                j += 1;
            }
            proof {
                lemma_entry_index(ev, seg@, j as int);
            }
            let mut m = String::new();
            push_str(&mut m, "Key '");
            let t = string_from_chars(seg);
            push_str(&mut m, t.as_str());
            push_str(&mut m, "' not found");
            proof {
                assert(Seq::<char>::empty() + "Key '"@ =~= "Key '"@);
            }
            Err(m)
        },
        JsonValue::Array(items) => {
            proof {
                assert(seg@.subrange(0, seg@.len() as int) =~= seg@);
            }
            match parse_usize_chars(seg, 0, seg.len()) {
                None => {
                    let mut m = String::new();
                    push_str(&mut m, "Invalid array index '");
                    let t = string_from_chars(seg);
                    push_str(&mut m, t.as_str());
                    push_str(&mut m, "'");
                    proof {
                        assert(Seq::<char>::empty() + "Invalid array index '"@ =~= "Invalid array index '"@);
                    }
                    Err(m)
                },
                Some(k) => {
                    if k < items.len() {
                        Ok(&items[k])
                    } else {
                        let mut m = String::new();
                        push_str(&mut m, "Array index ");
                        push_decimal(&mut m, k as u64);
                        push_str(&mut m, " out of bounds (length ");
                        push_decimal(&mut m, items.len() as u64);
                        push_str(&mut m, ")");
                        proof {
                            assert(Seq::<char>::empty() + "Array index "@ =~= "Array index "@);
                        }
                        Err(m)
                    }
                },
            }
        },
        _ => {
            let mut m = String::new();
            push_str(&mut m, "Cannot index into ");
            let d = scalar_debug_text(cur);
            push_str(&mut m, d.as_str());
            push_str(&mut m, " with '");
            let t = string_from_chars(seg);
            push_str(&mut m, t.as_str());
            push_str(&mut m, "'");
            proof {
                assert(Seq::<char>::empty() + "Cannot index into "@ =~= "Cannot index into "@);
            }
            Err(m)
        },
    }
}

/// The value at a dotted path such as `data.users.0.name` (see
/// `resolved`): the whole value for an empty path.
pub fn resolve_path<'a>(value: &'a JsonValue, path: &str) -> (r: Result<&'a JsonValue, String>)
    ensures
        match resolved(value@, path@) {
            Ok(t) => r is Ok && r->Ok_0@ == t,
            Err(m) => r is Err && r->Err_0@ == m,
        },
{
    let chars = str_chars(path);
    if chars.len() == 0 {
        return Ok(value);
    }
    let pieces = split_pieces(chars.as_slice(), '.');
    let ghost segs = seqs_of(pieces@);
    let mut cur: &JsonValue = value;
    let mut i: usize = 0;
    proof {
        assert(segs.len() == pieces@.len());
    }
    while i < pieces.len()
        invariant
            i <= pieces@.len(),
            segs == seqs_of(pieces@),
            segs == split_at_char(path@, '.'),
            segs.len() == pieces@.len(),
            path@.len() > 0,
            walk_path(value@, segs, 0) == walk_path(cur@, segs, i as int),
        decreases pieces@.len() - i,
    {
        proof {
            assert(segs[i as int] == pieces@[i as int]@);
        }
        match path_step_exec(cur, pieces[i].as_slice()) {
            Ok(next) => {
                cur = next;
            },
            Err(m) => {
                return Err(m);
            },
        }
        i += 1;
    }
    Ok(cur)
}

// ---------------------------------------------------------------------------
// serde_json
// ---------------------------------------------------------------------------

/// What `serde_json::from_str::<serde_json::Value>` gives for a text: the
/// value, or the error's line, column and message.
pub uninterp spec fn json_parsed(input: Seq<char>) -> Result<JsonSpec, (nat, nat, Seq<char>)>;

/// What `serde_json::to_string_pretty` prints for a value.
pub uninterp spec fn json_pretty(v: JsonSpec) -> Seq<char>;

/// What `serde_json::to_string` prints for a value.
pub uninterp spec fn json_compact(v: JsonSpec) -> Seq<char>;

/// Whether `serde_json::Number`'s `FromStr` reads a number text.
pub uninterp spec fn number_reads(n: Seq<char>) -> bool;

/// Whether `n` is the text of a number somewhere in the value.
pub open spec fn number_in(v: JsonSpec, n: Seq<char>) -> bool
    decreases v,
{
    match v {
        JsonSpec::Number(m) => m == n,
        JsonSpec::Array(items) => exists|i: int| 0 <= i < items.len() && number_in(#[trigger] items[i], n),
        JsonSpec::Object(es) => exists|i: int| 0 <= i < es.len() && number_in(#[trigger] es[i].1, n),
        _ => false,
    }
}

/// Whether every number text in a value reads back as a
/// `serde_json::Number` (see `number_reads`).
pub open spec fn numbers_read(v: JsonSpec) -> bool {
    forall|n: Seq<char>| number_in(v, n) ==> number_reads(n)
}

/// The values of entries put into a sorted list come from the list or are
/// the one put in.
proof fn lemma_insert_entry_from(s: Seq<(Seq<char>, JsonSpec)>, k: Seq<char>, v: JsonSpec)
    ensures
        forall|i: int| 0 <= i < insert_entry(s, k, v).len() ==> (#[trigger] insert_entry(s, k, v)[i]).1 == v
            || exists|j: int| 0 <= j < s.len() && s[j].1 == insert_entry(s, k, v)[i].1,
    decreases s.len(),
{
    if s.len() > 0 {
        let r = s.drop_first();
        lemma_insert_entry_from(r, k, v);
        let e = insert_entry(s, k, v);
        assert forall|i: int| 0 <= i < e.len() implies (#[trigger] e[i]).1 == v || exists|j: int|
            0 <= j < s.len() && s[j].1 == e[i].1 by {
            if key_lt(s[0].0, k) {
                if i == 0 {
                    assert(s[0].1 == e[i].1);
                } else {
                    let x = insert_entry(r, k, v)[i - 1];
                    assert(e[i] == x);
                    if x.1 != v {
                        let j = choose|j: int| 0 <= j < r.len() && r[j].1 == x.1;
                        assert(s[j + 1].1 == e[i].1);
                    }
                }
            } else if s[0].0 == k {
                if i > 0 {
                    assert(e[i] == r[i - 1]);
                    assert(s[i].1 == e[i].1);
                }
            } else {
                if i > 0 {
                    assert(e[i] == s[i - 1]);
                }
            }
        }
    }
}

/// The values of sorted entries come from the entries.
proof fn lemma_sorted_entries_from(es: Seq<(Seq<char>, JsonSpec)>)
    ensures
        forall|i: int| 0 <= i < sorted_entries(es).len() ==> exists|j: int|
            0 <= j < es.len() && es[j].1 == (#[trigger] sorted_entries(es)[i]).1,
    decreases es.len(),
{
    if es.len() > 0 {
        let d = es.drop_last();
        lemma_sorted_entries_from(d);
        lemma_insert_entry_from(sorted_entries(d), es.last().0, es.last().1);
        let e = sorted_entries(es);
        assert forall|i: int| 0 <= i < e.len() implies exists|j: int|
            0 <= j < es.len() && es[j].1 == (#[trigger] e[i]).1 by {
            if e[i].1 == es.last().1 {
                assert(es[es.len() - 1].1 == e[i].1);
            } else {
                let j = choose|j: int| 0 <= j < sorted_entries(d).len() && sorted_entries(d)[j].1 == e[i].1;
                let j2 = choose|j2: int| 0 <= j2 < d.len() && d[j2].1 == sorted_entries(d)[j].1;
                assert(es[j2].1 == e[i].1);
            }
        }
    }
}

/// Every number of a value with its keys sorted is a number of the value.
pub proof fn lemma_sorted_numbers(v: JsonSpec, n: Seq<char>)
    ensures
        number_in(sorted_spec(v), n) ==> number_in(v, n),
    decreases v,
{
    match v {
        JsonSpec::Array(items) => {
            if number_in(sorted_spec(v), n) {
                let a = sorted_spec(v)->Array_0;
                let i = choose|i: int| 0 <= i < a.len() && number_in(#[trigger] a[i], n);
                lemma_sorted_numbers(items[i], n);
                assert(number_in(items[i], n));
            }
        },
        JsonSpec::Object(es) => {
            if number_in(sorted_spec(v), n) {
                let m = sorted_members(es);
                let e = sorted_entries(m);
                lemma_sorted_entries_from(m);
                let i = choose|i: int| 0 <= i < e.len() && number_in(#[trigger] e[i].1, n);
                let j = choose|j: int| 0 <= j < m.len() && m[j].1 == e[i].1;
                lemma_sorted_numbers(es[j].1, n);
                assert(number_in(es[j].1, n));
            }
        },
        _ => {},
    }
}

/// Sorting keys keeps every number text reading back.
pub proof fn lemma_sorted_reads(v: JsonSpec)
    requires
        numbers_read(v),
    ensures
        numbers_read(sorted_spec(v)),
{
    assert forall|n: Seq<char>| number_in(sorted_spec(v), n) implies number_reads(n) by {
        lemma_sorted_numbers(v, n);
    }
}

/// The first entry with a key lies among the entries.
proof fn lemma_entry_index_in(es: Seq<(Seq<char>, JsonSpec)>, k: Seq<char>)
    ensures
        entry_index(es, k) matches Some(j) ==> 0 <= j < es.len(),
    decreases es.len(),
{
    if es.len() > 0 && es[0].0 != k {
        lemma_entry_index_in(es.drop_first(), k);
    }
}

/// Following a path reaches a part of the value: its numbers are numbers
/// of the value.
pub proof fn lemma_walk_numbers(v: JsonSpec, segs: Seq<Seq<char>>, i: int, n: Seq<char>)
    ensures
        walk_path(v, segs, i) matches Ok(t) ==> (number_in(t, n) ==> number_in(v, n)),
    decreases segs.len() - i,
{
    if 0 <= i < segs.len() {
        match v {
            JsonSpec::Object(es) => lemma_entry_index_in(es, segs[i]),
            _ => {},
        }
        match path_step(v, segs[i]) {
            Ok(w) => {
                lemma_walk_numbers(w, segs, i + 1, n);
                match v {
                    JsonSpec::Object(es) => {
                        let j = entry_index(es, segs[i])->Some_0;
                        if number_in(w, n) {
                            assert(number_in(es[j].1, n));
                        }
                    },
                    JsonSpec::Array(items) => {
                        let k = parse_usize(segs[i])->Some_0 as int;
                        if number_in(w, n) {
                            assert(number_in(items[k], n));
                        }
                    },
                    _ => {},
                }
            },
            Err(_) => {},
        }
    }
}

/// Following a path keeps every number text reading back.
pub proof fn lemma_walk_reads(v: JsonSpec, segs: Seq<Seq<char>>, i: int)
    requires
        numbers_read(v),
    ensures
        walk_path(v, segs, i) matches Ok(t) ==> numbers_read(t),
{
    if walk_path(v, segs, i) is Ok {
        let t = walk_path(v, segs, i)->Ok_0;
        assert forall|n: Seq<char>| number_in(t, n) implies number_reads(n) by {
            lemma_walk_numbers(v, segs, i, n);
        }
    }
}

/// Where and why a text is not JSON.
#[derive(Debug, PartialEq)]
pub struct JsonSyntaxError {
    pub line: usize,
    pub column: usize,
    pub message: String,
}

/// A `serde_json::Value` as a `JsonValue`, one for one: a number by the
/// text it prints.
#[verifier::external_body]
fn value_from_serde(v: serde_json::Value) -> JsonValue {
    match v {
        serde_json::Value::Null => JsonValue::Null,
        serde_json::Value::Bool(b) => JsonValue::Bool(b),
        serde_json::Value::Number(n) => JsonValue::Number(n.to_string()),
        serde_json::Value::String(t) => JsonValue::Str(t),
        serde_json::Value::Array(a) => JsonValue::Array(a.into_iter().map(value_from_serde).collect()),
        serde_json::Value::Object(m) => JsonValue::Object(
            m.into_iter().map(|(k, e)| (k, value_from_serde(e))).collect(),
        ),
    }
}

/// A `JsonValue` as a `serde_json::Value`, one for one; a number's text is
/// read back with `serde_json::Number`'s `FromStr`, whose error is passed on.
#[verifier::external_body]
fn value_to_serde(v: &JsonValue) -> Result<serde_json::Value, String> {
    Ok(match v {
        JsonValue::Null => serde_json::Value::Null,
        JsonValue::Bool(b) => serde_json::Value::Bool(*b),
        JsonValue::Number(n) => serde_json::Value::Number(n.parse().map_err(|e: serde_json::Error| e.to_string())?),
        JsonValue::Str(t) => serde_json::Value::String(t.clone()),
        JsonValue::Array(a) => serde_json::Value::Array(a.iter().map(value_to_serde).collect::<Result<_, _>>()?),
        JsonValue::Object(es) => serde_json::Value::Object(
            es.iter().map(|(k, e)| Ok((k.clone(), value_to_serde(e)?))).collect::<Result<_, String>>()?,
        ),
    })
}

/// `serde_json::from_str::<serde_json::Value>`: the value read from the
/// text, or the error's line, column and message (`Display`). Both are
/// named by `json_parsed`, not stated. Every number of the value is kept
/// as the text `serde_json::Number` displays, which its `FromStr` reads
/// back.
#[verifier::external_body]
fn parse_json(input: &str) -> (r: Result<JsonValue, JsonSyntaxError>)
    ensures
        match r {
            Ok(v) => json_parsed(input@) == Ok::<JsonSpec, (nat, nat, Seq<char>)>(v@) && forall|n: Seq<char>|
                number_in(v@, n) ==> number_reads(n),
            Err(e) => json_parsed(input@) == Err::<JsonSpec, (nat, nat, Seq<char>)>(
                (e.line as nat, e.column as nat, e.message@),
            ),
        },
{
    match serde_json::from_str::<serde_json::Value>(input) {
        Ok(v) => Ok(value_from_serde(v)),
        Err(e) => Err(JsonSyntaxError { line: e.line(), column: e.column(), message: e.to_string() }),
    }
}

/// `serde_json::to_string_pretty` on the value: its text (named by
/// `json_pretty`). Printing a `serde_json::Value` does not fail, so the
/// only error is a number text that does not read back; its text is not
/// stated.
#[verifier::external_body]
fn pretty_text(v: &JsonValue) -> (r: Result<String, String>)
    ensures
        r is Ok ==> r->Ok_0@ == json_pretty(v@),
        (forall|n: Seq<char>| number_in(v@, n) ==> number_reads(n)) ==> r is Ok,
{
    serde_json::to_string_pretty(&value_to_serde(v)?).map_err(|e| e.to_string())
}

/// `serde_json::to_string` on the value: its text (named by
/// `json_compact`). Printing a `serde_json::Value` does not fail, so the
/// only error is a number text that does not read back; its text is not
/// stated.
#[verifier::external_body]
fn compact_text(v: &JsonValue) -> (r: Result<String, String>)
    ensures
        r is Ok ==> r->Ok_0@ == json_compact(v@),
        (forall|n: Seq<char>| number_in(v@, n) ==> number_reads(n)) ==> r is Ok,
{
    serde_json::to_string(&value_to_serde(v)?).map_err(|e| e.to_string())
}

/// `format!("{:?}", s)`: the string quoted and escaped as `Debug` prints
/// it (named by `str_debug`).
#[verifier::external_body]
fn debug_str(s: &str) -> (r: String)
    ensures
        r@ == str_debug(s@),
{
    format!("{:?}", s)
}

// ---------------------------------------------------------------------------
// The tools
// ---------------------------------------------------------------------------

/// Whether `r` is the printed `text`, or a failure to print whose message
/// starts with `prefix`.
pub open spec fn printed_or_failed(r: Result<String, String>, text: Seq<char>, prefix: Seq<char>) -> bool {
    match r {
        Ok(t) => t@ == text,
        Err(e) => starts_with(e@, prefix),
    }
}

/// `prefix` followed by `rest`, as a new string.
fn prefixed(prefix: &str, rest: &str) -> (r: String)
    ensures
        r@ == prefix@ + rest@,
        starts_with(r@, prefix@),
{
    let mut m = String::new();
    push_str(&mut m, prefix);
    push_str(&mut m, rest);
    proof {
        assert(Seq::<char>::empty() + prefix@ =~= prefix@);
        assert((prefix@ + rest@).take(prefix@.len() as int) =~= prefix@);
    }
    m
}

/// A value pretty-printed, or "Formatting error: " and the reason.
fn pretty_or_error(v: &JsonValue) -> (r: Result<String, String>)
    ensures
        printed_or_failed(r, json_pretty(v@), "Formatting error: "@),
        numbers_read(v@) ==> r is Ok,
{
    match pretty_text(v) {
        Ok(t) => Ok(t),
        Err(e) => Err(prefixed("Formatting error: ", e.as_str())),
    }
}

/// Pretty-prints JSON with 2-space indentation. A text that is not JSON
/// gives "Invalid JSON: " and the parser's message.
pub fn format_json(input: &str) -> (r: Result<String, String>)
    ensures
        match json_parsed(input@) {
            Err((_, _, m)) => r is Err && r->Err_0@ == "Invalid JSON: "@ + m,
            Ok(v) => r is Ok && r->Ok_0@ == json_pretty(v),
        },
{
    match parse_json(input) {
        Err(e) => Err(prefixed("Invalid JSON: ", e.message.as_str())),
        Ok(v) => pretty_or_error(&v),
    }
}

/// Minifies JSON to a single line with no extra whitespace. A text that
/// is not JSON gives "Invalid JSON: " and the parser's message.
pub fn compact_json(input: &str) -> (r: Result<String, String>)
    ensures
        match json_parsed(input@) {
            Err((_, _, m)) => r is Err && r->Err_0@ == "Invalid JSON: "@ + m,
            Ok(v) => r is Ok && r->Ok_0@ == json_compact(v),
        },
{
    match parse_json(input) {
        Err(e) => Err(prefixed("Invalid JSON: ", e.message.as_str())),
        Ok(v) => match compact_text(&v) {
            Ok(t) => Ok(t),
            Err(e) => Err(prefixed("Compacting error: ", e.as_str())),
        },
    }
}

/// Checks that a text is JSON; if not, the error gives the line and the
/// column where reading failed, and the parser's message.
pub fn validate_json(input: &str) -> (r: Result<(), String>)
    ensures
        match json_parsed(input@) {
            Err((l, c, m)) => r is Err && r->Err_0@ == "Invalid JSON at line "@ + decimal(l) + " column "@
                + decimal(c) + ": "@ + m,
            Ok(_) => r is Ok,
        },
{
    match parse_json(input) {
        Ok(_) => Ok(()),
        Err(e) => {
            let mut m = String::new();
            push_str(&mut m, "Invalid JSON at line ");
            push_decimal(&mut m, e.line as u64);
            push_str(&mut m, " column ");
            push_decimal(&mut m, e.column as u64);
            push_str(&mut m, ": ");
            push_str(&mut m, e.message.as_str());
            proof {
                assert(Seq::<char>::empty() + "Invalid JSON at line "@ =~= "Invalid JSON at line "@);
            }
            Err(m)
        },
    }
}

/// Sorts the keys of every object, at every depth (see `sorted_spec`), and
/// pretty-prints the result. A text that is not JSON gives "Invalid JSON: "
/// and the parser's message.
pub fn sort_json_keys(input: &str) -> (r: Result<String, String>)
    ensures
        match json_parsed(input@) {
            Err((_, _, m)) => r is Err && r->Err_0@ == "Invalid JSON: "@ + m,
            Ok(v) => r is Ok && r->Ok_0@ == json_pretty(sorted_spec(v)),
        },
{
    match parse_json(input) {
        Err(e) => Err(prefixed("Invalid JSON: ", e.message.as_str())),
        Ok(v) => {
            proof {
                lemma_sorted_reads(v@);
            }
            let sorted = sort_value(&v);
            pretty_or_error(&sorted)
        },
    }
}

/// The value at a dotted path such as `data.users.0.name` (see
/// `resolved`), pretty-printed. A text that is not JSON gives
/// "Invalid JSON: " and the parser's message; a path that leads nowhere
/// gives the message of `resolved`.
pub fn json_to_path(input: &str, path: &str) -> (r: Result<String, String>)
    ensures
        match json_parsed(input@) {
            Err((_, _, m)) => r is Err && r->Err_0@ == "Invalid JSON: "@ + m,
            Ok(v) => match resolved(v, path@) {
                Err(m) => r is Err && r->Err_0@ == m,
                Ok(t) => r is Ok && r->Ok_0@ == json_pretty(t),
            },
        },
{
    match parse_json(input) {
        Err(e) => Err(prefixed("Invalid JSON: ", e.message.as_str())),
        Ok(v) => match resolve_path(&v, path) {
            Err(m) => Err(m),
            Ok(t) => {
                proof {
                    lemma_walk_reads(v@, split_at_char(path@, '.'), 0);
                }
                pretty_or_error(t)
            },
        },
    }
}

} // verus!
