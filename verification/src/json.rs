//! The pipeline's model of a JSON value.
//!
//! Numbers keep their source lexeme as text, so that re-serializing a parsed
//! value loses no precision and this crate holds no floating-point data.

use vstd::prelude::*;
use vstd::string::StringExecFns;
use crate::text::chars_vec;
use serde_json::Value;

verus! {

/// A JSON value.  `Num` holds the number's lexeme as it appeared in the
/// source text (or as the parser normalized it).
#[derive(Debug, PartialEq, Eq)]
pub enum Json {
    Null,
    Bool(bool),
    Num(String),
    Str(String),
    Arr(Vec<Json>),
    Obj(Vec<(String, Json)>),
}

/// The mathematical shape of a [`Json`] value: the same tree over sequences.
/// Contracts in this crate speak of this view.
#[verifier::ext_equal]
pub ghost enum JsonV {
    Null,
    Bool(bool),
    Num(Seq<char>),
    Str(Seq<char>),
    Arr(Seq<JsonV>),
    Obj(Seq<(Seq<char>, JsonV)>),
}

/// The view of a `Json` value.
pub open spec fn jv(j: Json) -> JsonV
    decreases j,
{
    match j {
        Json::Null => JsonV::Null,
        Json::Bool(b) => JsonV::Bool(b),
        Json::Num(s) => JsonV::Num(s@),
        Json::Str(s) => JsonV::Str(s@),
        Json::Arr(v) => JsonV::Arr(jv_seq(v@)),
        Json::Obj(v) => JsonV::Obj(jv_pairs(v@)),
    }
}

/// The views of a sequence of `Json` values, element by element.
pub open spec fn jv_seq(s: Seq<Json>) -> Seq<JsonV>
    decreases s,
{
    if s.len() == 0 {
        Seq::empty()
    } else {
        jv_seq(s.drop_last()).push(jv(s.last()))
    }
}

/// The views of a sequence of key/value pairs, element by element.
pub open spec fn jv_pairs(s: Seq<(String, Json)>) -> Seq<(Seq<char>, JsonV)>
    decreases s,
{
    if s.len() == 0 {
        Seq::empty()
    } else {
        jv_pairs(s.drop_last()).push((s.last().0@, jv(s.last().1)))
    }
}

/// `jv_seq` maps the sequence element by element.
pub proof fn lemma_jv_seq(s: Seq<Json>)
    ensures
        jv_seq(s).len() == s.len(),
        forall|i: int| 0 <= i < s.len() ==> jv_seq(s)[i] == jv(s[i]),
    decreases s,
{
    if s.len() > 0 {
        lemma_jv_seq(s.drop_last());
    }
}

/// `jv_pairs` maps the sequence element by element.
pub proof fn lemma_jv_pairs(s: Seq<(String, Json)>)
    ensures
        jv_pairs(s).len() == s.len(),
        forall|i: int| 0 <= i < s.len() ==> jv_pairs(s)[i] == (s[i].0@, jv(s[i].1)),
    decreases s,
{
    if s.len() > 0 {
        lemma_jv_pairs(s.drop_last());
    }
}

/// The hexadecimal digit character for `n`.
pub open spec fn hex_digit_char(n: int) -> char
    recommends
        0 <= n < 16,
{
    if n == 0 { '0' } else if n == 1 { '1' } else if n == 2 { '2' } else if n == 3 { '3' }
    else if n == 4 { '4' } else if n == 5 { '5' } else if n == 6 { '6' } else if n == 7 { '7' }
    else if n == 8 { '8' } else if n == 9 { '9' } else if n == 10 { 'a' } else if n == 11 { 'b' }
    else if n == 12 { 'c' } else if n == 13 { 'd' } else if n == 14 { 'e' } else { 'f' }
}

/// How one character of a JSON string body is escaped.
pub open spec fn escape_char(c: char) -> Seq<char> {
    if c == '"' { seq!['\\', '"'] }
    else if c == '\\' { seq!['\\', '\\'] }
    else if c == '\n' { seq!['\\', 'n'] }
    else if c == '\r' { seq!['\\', 'r'] }
    else if c == '\t' { seq!['\\', 't'] }
    else if (c as u32) < 32 {
        seq!['\\', 'u', '0', '0', hex_digit_char(c as u32 as int / 16), hex_digit_char(c as u32 as int % 16)]
    } else { seq![c] }
}

/// A whole string body, escaped.
pub open spec fn escape_string(s: Seq<char>) -> Seq<char>
    decreases s.len(),
{
    if s.len() == 0 {
        Seq::empty()
    } else {
        escape_string(s.drop_last()) + escape_char(s.last())
    }
}

/// The compact (single-line) serialization of a JSON value.
pub open spec fn compact(v: JsonV) -> Seq<char>
    decreases v,
{
    match v {
        JsonV::Null => "null"@,
        JsonV::Bool(b) => if b { "true"@ } else { "false"@ },
        JsonV::Num(s) => s,
        JsonV::Str(s) => seq!['"'] + escape_string(s) + seq!['"'],
        JsonV::Arr(items) => seq!['['] + compact_items(items) + seq![']'],
        JsonV::Obj(pairs) => seq!['{'] + compact_entries(pairs) + seq!['}'],
    }
}

/// The compact serialization of the elements of an array, comma-separated.
pub open spec fn compact_items(items: Seq<JsonV>) -> Seq<char>
    decreases items,
{
    if items.len() == 0 {
        Seq::empty()
    } else if items.len() == 1 {
        compact(items[0])
    } else {
        compact_items(items.drop_last()) + seq![','] + compact(items.last())
    }
}

/// The compact serialization of the entries of an object, comma-separated.
pub open spec fn compact_entries(pairs: Seq<(Seq<char>, JsonV)>) -> Seq<char>
    decreases pairs,
{
    if pairs.len() == 0 {
        Seq::empty()
    } else if pairs.len() == 1 {
        compact_entry(pairs[0])
    } else {
        compact_entries(pairs.drop_last()) + seq![','] + compact_entry(pairs.last())
    }
}

/// One compact object entry: a quoted key, a colon, the value.
pub open spec fn compact_entry(p: (Seq<char>, JsonV)) -> Seq<char>
    decreases p,
{
    seq!['"'] + escape_string(p.0) + seq!['"', ':'] + compact(p.1)
}

/// The pretty (indented, multi-line) serialization of a JSON value, where
/// `ind` is the indentation of the line the value starts on.
pub open spec fn pretty(v: JsonV, ind: Seq<char>) -> Seq<char>
    decreases v,
{
    match v {
        JsonV::Arr(items) => if items.len() == 0 {
            seq!['[', ']']
        } else {
            seq!['[', '\n'] + pretty_items(items, ind + seq![' ', ' ']) + seq!['\n'] + ind + seq![']']
        },
        JsonV::Obj(pairs) => if pairs.len() == 0 {
            seq!['{', '}']
        } else {
            seq!['{', '\n'] + pretty_entries(pairs, ind + seq![' ', ' ']) + seq!['\n'] + ind + seq!['}']
        },
        _ => compact(v),
    }
}

/// Pretty array elements: each on its own line at indentation `ind`.
pub open spec fn pretty_items(items: Seq<JsonV>, ind: Seq<char>) -> Seq<char>
    decreases items,
{
    if items.len() == 0 {
        Seq::empty()
    } else if items.len() == 1 {
        ind + pretty(items[0], ind)
    } else {
        pretty_items(items.drop_last(), ind) + seq![',', '\n'] + ind + pretty(items.last(), ind)
    }
}

/// Pretty object entries: each on its own line at indentation `ind`.
pub open spec fn pretty_entries(pairs: Seq<(Seq<char>, JsonV)>, ind: Seq<char>) -> Seq<char>
    decreases pairs,
{
    if pairs.len() == 0 {
        Seq::empty()
    } else if pairs.len() == 1 {
        pretty_entry(pairs[0], ind)
    } else {
        pretty_entries(pairs.drop_last(), ind) + seq![',', '\n'] + pretty_entry(pairs.last(), ind)
    }
}

/// One pretty object entry on its own line.
pub open spec fn pretty_entry(p: (Seq<char>, JsonV), ind: Seq<char>) -> Seq<char>
    decreases p,
{
    ind + seq!['"'] + escape_string(p.0) + seq!['"', ':', ' '] + pretty(p.1, ind)
}

/// The serialization of a JSON value under the formatting choice.
pub open spec fn render(v: JsonV, pretty_on: bool) -> Seq<char> {
    if pretty_on {
        pretty(v, Seq::empty())
    } else {
        compact(v)
    }
}

/// Escaping one more character extends the escaped text on the right.
proof fn lemma_escape_take_step(s: Seq<char>, i: int)
    requires
        0 <= i < s.len(),
    ensures
        escape_string(s.take(i + 1)) == escape_string(s.take(i)) + escape_char(s[i]),
{
    let t = s.take(i + 1);
    assert(t.drop_last() =~= s.take(i));
    assert(t.last() == s[i]);
}

/// Serializing one more array element extends the compact element text.
proof fn lemma_compact_items_step(items: Seq<JsonV>, i: int)
    requires
        0 <= i < items.len(),
    ensures
        compact_items(items.take(i + 1)) == (if i == 0 {
            compact(items[0])
        } else {
            compact_items(items.take(i)) + seq![','] + compact(items[i])
        }),
{
    let t = items.take(i + 1);
    assert(t.drop_last() =~= items.take(i));
    assert(t.last() == items[i]);
    assert(t[0] == items[0]);
}

/// Serializing one more object entry extends the compact entry text.
proof fn lemma_compact_entries_step(pairs: Seq<(Seq<char>, JsonV)>, i: int)
    requires
        0 <= i < pairs.len(),
    ensures
        compact_entries(pairs.take(i + 1)) == (if i == 0 {
            compact_entry(pairs[0])
        } else {
            compact_entries(pairs.take(i)) + seq![','] + compact_entry(pairs[i])
        }),
{
    let t = pairs.take(i + 1);
    assert(t.drop_last() =~= pairs.take(i));
    assert(t.last() == pairs[i]);
    assert(t[0] == pairs[0]);
}

/// Serializing one more array element extends the pretty element text.
proof fn lemma_pretty_items_step(items: Seq<JsonV>, ind: Seq<char>, i: int)
    requires
        0 <= i < items.len(),
    ensures
        pretty_items(items.take(i + 1), ind) == (if i == 0 {
            ind + pretty(items[0], ind)
        } else {
            pretty_items(items.take(i), ind) + seq![',', '\n'] + ind + pretty(items[i], ind)
        }),
{
    let t = items.take(i + 1);
    assert(t.drop_last() =~= items.take(i));
    assert(t.last() == items[i]);
    assert(t[0] == items[0]);
}

/// Serializing one more object entry extends the pretty entry text.
proof fn lemma_pretty_entries_step(pairs: Seq<(Seq<char>, JsonV)>, ind: Seq<char>, i: int)
    requires
        0 <= i < pairs.len(),
    ensures
        pretty_entries(pairs.take(i + 1), ind) == (if i == 0 {
            pretty_entry(pairs[0], ind)
        } else {
            pretty_entries(pairs.take(i), ind) + seq![',', '\n'] + pretty_entry(pairs[i], ind)
        }),
{
    let t = pairs.take(i + 1);
    assert(t.drop_last() =~= pairs.take(i));
    assert(t.last() == pairs[i]);
    assert(t[0] == pairs[0]);
}

/// The hexadecimal digit character for `n`.
fn hex_digit(n: u32) -> (r: char)
    requires
        n < 16,
    ensures
        r == hex_digit_char(n as int),
{
    if n == 0 { '0' } else if n == 1 { '1' } else if n == 2 { '2' } else if n == 3 { '3' }
    else if n == 4 { '4' } else if n == 5 { '5' } else if n == 6 { '6' } else if n == 7 { '7' }
    else if n == 8 { '8' } else if n == 9 { '9' } else if n == 10 { 'a' } else if n == 11 { 'b' }
    else if n == 12 { 'c' } else if n == 13 { 'd' } else if n == 14 { 'e' } else { 'f' }
}

/// Writes a JSON string literal: a quote, the escaped body, a quote.
fn write_quoted(s: &str, out: &mut String)
    ensures
        final(out)@ == old(out)@ + seq!['"'] + escape_string(s@) + seq!['"'],
{
    let cs = chars_vec(s);
    out.push('"');
    proof {
        assert(s@.take(0) =~= Seq::<char>::empty());
        assert(out@ =~= old(out)@ + seq!['"'] + escape_string(s@.take(0)));
    }
    let mut i: usize = 0;
    while i < cs.len()
        invariant
            i <= cs.len(),
            cs@ == s@,
            out@ == old(out)@ + seq!['"'] + escape_string(s@.take(i as int)),
        decreases cs.len() - i,
    {
        let c = cs[i];
        if c == '"' {
            out.push('\\');
            out.push('"');
        } else if c == '\\' {
            out.push('\\');
            out.push('\\');
        } else if c == '\n' {
            out.push('\\');
            out.push('n');
        } else if c == '\r' {
            out.push('\\');
            out.push('r');
        } else if c == '\t' {
            out.push('\\');
            out.push('t');
        } else if (c as u32) < 32 {
            out.push('\\');
            out.push('u');
            out.push('0');
            out.push('0');
            out.push(hex_digit((c as u32) / 16));
            out.push(hex_digit((c as u32) % 16));
        } else {
            out.push(c);
        }
        proof {
            lemma_escape_take_step(s@, i as int);
            assert(out@ =~= old(out)@ + seq!['"'] + escape_string(s@.take(i as int)) + escape_char(s@[i as int]));
        }
        i = i + 1;
    }
    proof {
        assert(s@.take(cs.len() as int) =~= s@);
    }
    out.push('"');
    proof {
        assert(out@ =~= old(out)@ + seq!['"'] + escape_string(s@) + seq!['"']);
    }
}

/// Serializes a JSON value and appends the text to `out`.  `ind` is the
/// indentation of the line the value starts on; it matters only when
/// `pretty_on` is set.
#[verifier::loop_isolation(false)]
#[verifier::rlimit(100)]
#[verifier::spinoff_prover]
pub fn write_json(j: &Json, pretty_on: bool, ind: &str, out: &mut String)
    ensures
        final(out)@ == old(out)@ + (if pretty_on { pretty(jv(*j), ind@) } else { compact(jv(*j)) }),
    decreases *j,
{
    match j {
        Json::Null => {
            out.append("null");
        },
        Json::Bool(b) => {
            if *b {
                out.append("true");
            } else {
                out.append("false");
            }
        },
        Json::Num(s) => {
            out.append(s.as_str());
        },
        Json::Str(s) => {
            write_quoted(s.as_str(), out);
        },
        Json::Arr(v) => {
            proof {
                lemma_jv_seq(v@);
            }
            let ghost items = jv_seq(v@);
            if v.len() == 0 {
                out.push('[');
                out.push(']');
                proof {
                    assert(out@ =~= old(out)@ + (if pretty_on { pretty(jv(*j), ind@) } else { compact(jv(*j)) }));
                }
            } else if pretty_on {
                out.push('[');
                out.push('\n');
                let mut ci = ind.to_owned();
                ci.push(' ');
                ci.push(' ');
                let ghost cind = ci@;
                proof {
                    assert(cind =~= ind@ + seq![' ', ' ']);
                    assert(items.take(0) =~= Seq::<JsonV>::empty());
                    assert(out@ =~= old(out)@ + seq!['[', '\n'] + pretty_items(items.take(0), cind));
                }
                let mut i: usize = 0;
                while i < v.len()
                    invariant
                        i <= v.len(),
                        items == jv_seq(v@),
                        items.len() == v@.len(),
                        forall|k: int| 0 <= k < v@.len() ==> items[k] == jv(v@[k]),
                        ci@ == cind,
                        out@ == old(out)@ + seq!['[', '\n'] + pretty_items(items.take(i as int), cind),
                    decreases v.len() - i,
                {
                    if i > 0 {
                        out.push(',');
                        out.push('\n');
                    }
                    out.append(ci.as_str());
                    write_json(&v[i], true, ci.as_str(), out);
                    proof {
                        lemma_pretty_items_step(items, cind, i as int);
                        assert(out@ =~= old(out)@ + seq!['[', '\n'] + pretty_items(items.take(i as int + 1), cind));
                    }
                    i = i + 1;
                }
                proof {
                    assert(items.take(v.len() as int) =~= items);
                }
                out.push('\n');
                out.append(ind);
                out.push(']');
                proof {
                    assert(out@ =~= old(out)@ + pretty(jv(*j), ind@));
                }
            } else {
                out.push('[');
                proof {
                    assert(items.take(0) =~= Seq::<JsonV>::empty());
                    assert(out@ =~= old(out)@ + seq!['['] + compact_items(items.take(0)));
                }
                let mut i: usize = 0;
                while i < v.len()
                    invariant
                        i <= v.len(),
                        items == jv_seq(v@),
                        items.len() == v@.len(),
                        forall|k: int| 0 <= k < v@.len() ==> items[k] == jv(v@[k]),
                        out@ == old(out)@ + seq!['['] + compact_items(items.take(i as int)),
                    decreases v.len() - i,
                {
                    if i > 0 {
                        out.push(',');
                    }
                    write_json(&v[i], false, ind, out);
                    proof {
                        lemma_compact_items_step(items, i as int);
                        assert(out@ =~= old(out)@ + seq!['['] + compact_items(items.take(i as int + 1)));
                    }
                    i = i + 1;
                }
                proof {
                    assert(items.take(v.len() as int) =~= items);
                }
                out.push(']');
                proof {
                    assert(out@ =~= old(out)@ + compact(jv(*j)));
                }
            }
        },
        Json::Obj(v) => {
            proof {
                lemma_jv_pairs(v@);
            }
            let ghost entries = jv_pairs(v@);
            if v.len() == 0 {
                out.push('{');
                out.push('}');
                proof {
                    assert(out@ =~= old(out)@ + (if pretty_on { pretty(jv(*j), ind@) } else { compact(jv(*j)) }));
                }
            } else if pretty_on {
                out.push('{');
                out.push('\n');
                let mut ci = ind.to_owned();
                ci.push(' ');
                ci.push(' ');
                let ghost cind = ci@;
                proof {
                    assert(cind =~= ind@ + seq![' ', ' ']);
                    assert(entries.take(0) =~= Seq::<(Seq<char>, JsonV)>::empty());
                    assert(out@ =~= old(out)@ + seq!['{', '\n'] + pretty_entries(entries.take(0), cind));
                }
                let mut i: usize = 0;
                while i < v.len()
                    invariant
                        i <= v.len(),
                        entries == jv_pairs(v@),
                        entries.len() == v@.len(),
                        forall|k: int| 0 <= k < v@.len() ==> entries[k] == (v@[k].0@, jv(v@[k].1)),
                        ci@ == cind,
                        out@ == old(out)@ + seq!['{', '\n'] + pretty_entries(entries.take(i as int), cind),
                    decreases v.len() - i,
                {
                    if i > 0 {
                        out.push(',');
                        out.push('\n');
                    }
                    out.append(ci.as_str());
                    write_quoted(v[i].0.as_str(), out);
                    out.push(':');
                    out.push(' ');
                    write_json(&v[i].1, true, ci.as_str(), out);
                    proof {
                        lemma_pretty_entries_step(entries, cind, i as int);
                        assert(out@ =~= old(out)@ + seq!['{', '\n'] + pretty_entries(entries.take(i as int + 1), cind));
                    }
                    i = i + 1;
                }
                proof {
                    assert(entries.take(v.len() as int) =~= entries);
                }
                out.push('\n');
                out.append(ind);
                out.push('}');
                proof {
                    assert(out@ =~= old(out)@ + pretty(jv(*j), ind@));
                }
            } else {
                out.push('{');
                proof {
                    assert(entries.take(0) =~= Seq::<(Seq<char>, JsonV)>::empty());
                    assert(out@ =~= old(out)@ + seq!['{'] + compact_entries(entries.take(0)));
                }
                let mut i: usize = 0;
                while i < v.len()
                    invariant
                        i <= v.len(),
                        entries == jv_pairs(v@),
                        entries.len() == v@.len(),
                        forall|k: int| 0 <= k < v@.len() ==> entries[k] == (v@[k].0@, jv(v@[k].1)),
                        out@ == old(out)@ + seq!['{'] + compact_entries(entries.take(i as int)),
                    decreases v.len() - i,
                {
                    if i > 0 {
                        out.push(',');
                    }
                    write_quoted(v[i].0.as_str(), out);
                    out.push(':');
                    write_json(&v[i].1, false, ind, out);
                    proof {
                        lemma_compact_entries_step(entries, i as int);
                        assert(out@ =~= old(out)@ + seq!['{'] + compact_entries(entries.take(i as int + 1)));
                    }
                    i = i + 1;
                }
                proof {
                    assert(entries.take(v.len() as int) =~= entries);
                }
                out.push('}');
                proof {
                    assert(out@ =~= old(out)@ + compact(jv(*j)));
                }
            }
        },
    }
}

/// Serializes a JSON value as text, compact or pretty.
pub fn to_text(j: &Json, pretty_on: bool) -> (r: String)
    ensures
        r@ == render(jv(*j), pretty_on),
{
    let mut out = String::new();
    write_json(j, pretty_on, "", &mut out);
    proof {
        reveal_strlit("");
        assert(""@ =~= Seq::<char>::empty());
        assert(out@ =~= render(jv(*j), pretty_on));
    }
    out
}

/// What parsing a text as JSON yields: the shape of the parsed value, or
/// nothing when the text is not valid JSON.  A function of the text alone.
pub uninterp spec fn json_parse_of(s: Seq<char>) -> Option<JsonV>;

/// Relies on serde_json::from_str::<serde_json::Value>: parses the text as
/// JSON; the outcome depends on the text alone.  The body maps each `Value`
/// variant to the matching `Json` variant, re-rendering array and object
/// elements so that the conversion recurses through this same function.
/// Number lexemes come from serde_json's `Number` display (digits, a sign, a
/// dot, an exponent), so they hold no newline.
#[verifier::external_body]
fn parse_json_raw(s: &str) -> (r: Option<Json>)
    ensures
        match r {
            Some(j) => json_parse_of(s@) == Some(jv(j)) && num_plain(jv(j)),
            None => json_parse_of(s@) is None,
        },
{
    let v: Value = serde_json::from_str(s).ok()?;
    Some(match v {
        Value::Null => Json::Null,
        Value::Bool(b) => Json::Bool(b),
        Value::Number(n) => Json::Num(n.to_string()),
        Value::String(t) => Json::Str(t),
        Value::Array(a) => Json::Arr(
            a.iter().map(|x| parse_json_raw(&x.to_string())).collect::<Option<_>>()?,
        ),
        Value::Object(m) => Json::Obj(
            m.iter().map(|(k, x)| Some((k.clone(), parse_json_raw(&x.to_string())?))).collect::<
                Option<_>,
            >()?,
        ),
    })
}

/// Parses a text as JSON into the pipeline's model of the value.  Number
/// lexemes of a parsed value never hold a newline, so its compact rendering
/// stays on one line.
pub fn parse_json(s: &str) -> (r: Option<Json>)
    ensures
        match r {
            Some(j) => json_parse_of(s@) == Some(jv(j)) && num_plain(jv(j)),
            None => json_parse_of(s@) is None,
        },
{
    parse_json_raw(s)
}

impl Json {
    /// A structurally equal copy of the value.
    #[verifier::loop_isolation(false)]
    pub fn deep_copy(&self) -> (r: Json)
        ensures
            jv(r) == jv(*self),
        decreases *self,
    {
        match self {
            Json::Null => Json::Null,
            Json::Bool(b) => Json::Bool(*b),
            Json::Num(s) => Json::Num(s.clone()),
            Json::Str(s) => Json::Str(s.clone()),
            Json::Arr(v) => {
                let mut out: Vec<Json> = Vec::new();
                let mut i: usize = 0;
                while i < v.len()
                    invariant
                        i <= v.len(),
                        out@.len() == i,
                        forall|k: int| 0 <= k < i ==> jv(out@[k]) == jv(v@[k]),
                    decreases v.len() - i,
                {
                    out.push(v[i].deep_copy());
                    i = i + 1;
                }
                proof {
                    lemma_jv_seq(out@);
                    lemma_jv_seq(v@);
                    assert(jv_seq(out@) =~= jv_seq(v@));
                }
                Json::Arr(out)
            },
            Json::Obj(v) => {
                let mut out: Vec<(String, Json)> = Vec::new();
                let mut i: usize = 0;
                while i < v.len()
                    invariant
                        i <= v.len(),
                        out@.len() == i,
                        forall|k: int| 0 <= k < i ==> out@[k].0@ == v@[k].0@ && jv(out@[k].1) == jv(v@[k].1),
                    decreases v.len() - i,
                {
                    let key = v[i].0.clone();
                    let val = v[i].1.deep_copy();
                    out.push((key, val));
                    i = i + 1;
                }
                proof {
                    lemma_jv_pairs(out@);
                    lemma_jv_pairs(v@);
                    assert(jv_pairs(out@) =~= jv_pairs(v@));
                }
                Json::Obj(out)
            },
        }
    }
}

/// The value of the first entry named `name` among `pairs`.
pub open spec fn field_in(pairs: Seq<(Seq<char>, JsonV)>, name: Seq<char>) -> Option<JsonV>
    decreases pairs,
{
    if pairs.len() == 0 {
        None
    } else if pairs[0].0 == name {
        Some(pairs[0].1)
    } else {
        field_in(pairs.drop_first(), name)
    }
}

/// The value of field `name` of `v`, when `v` is an object that has one.
pub open spec fn jv_field(v: JsonV, name: Seq<char>) -> Option<JsonV> {
    match v {
        JsonV::Obj(pairs) => field_in(pairs, name),
        _ => None,
    }
}

/// When no entry among the first `i` matches, the lookup starts at `i`.
proof fn lemma_field_in_skip(pairs: Seq<(Seq<char>, JsonV)>, name: Seq<char>, i: int)
    requires
        0 <= i <= pairs.len(),
        forall|k: int| 0 <= k < i ==> pairs[k].0 != name,
    ensures
        field_in(pairs, name) == field_in(pairs.skip(i), name),
    decreases i,
{
    if i > 0 {
        lemma_field_in_skip(pairs, name, i - 1);
        assert(pairs.skip(i - 1).drop_first() =~= pairs.skip(i));
        assert(pairs.skip(i - 1)[0] == pairs[i - 1]);
    } else {
        assert(pairs.skip(0) =~= pairs);
    }
}

/// Looks up the first field named `name` of an object value.
#[verifier::loop_isolation(false)]
pub fn get_field<'a>(j: &'a Json, name: &str) -> (r: Option<&'a Json>)
    ensures
        match r {
            Some(f) => jv_field(jv(*j), name@) == Some(jv(*f)),
            None => jv_field(jv(*j), name@) is None,
        },
{
    match j {
        Json::Obj(pairs) => {
            proof {
                lemma_jv_pairs(pairs@);
            }
            let ghost entries = jv_pairs(pairs@);
            let mut i: usize = 0;
            while i < pairs.len()
                invariant
                    i <= pairs.len(),
                    forall|k: int| 0 <= k < i ==> entries[k].0 != name@,
                decreases pairs.len() - i,
            {
                if crate::text::str_eq(pairs[i].0.as_str(), name) {
                    proof {
                        lemma_field_in_skip(entries, name@, i as int);
                        assert(entries.skip(i as int)[0] == entries[i as int]);
                    }
                    return Some(&pairs[i].1);
                }
                i = i + 1;
            }
            proof {
                lemma_field_in_skip(entries, name@, entries.len() as int);
                assert(entries.skip(entries.len() as int) =~= Seq::<(Seq<char>, JsonV)>::empty());
            }
            None
        },
        _ => None,
    }
}

/// No newline anywhere in the text.
pub open spec fn newline_free(s: Seq<char>) -> bool {
    forall|i: int| 0 <= i < s.len() ==> s[i] != '\n'
}

proof fn lemma_newline_free_concat(a: Seq<char>, b: Seq<char>)
    requires
        newline_free(a),
        newline_free(b),
    ensures
        newline_free(a + b),
{
    assert forall|i: int| 0 <= i < (a + b).len() implies (a + b)[i] != '\n' by {
        if i < a.len() {
            assert((a + b)[i] == a[i]);
        } else {
            assert((a + b)[i] == b[i - a.len()]);
        }
    }
}

/// Every number lexeme in the tree is free of newlines (every lexeme the
/// parser or the request builder produces is).
pub open spec fn num_plain(v: JsonV) -> bool
    decreases v,
{
    match v {
        JsonV::Num(s) => newline_free(s),
        JsonV::Arr(items) => forall|i: int| 0 <= i < items.len() ==> num_plain(#[trigger] items[i]),
        JsonV::Obj(pairs) => forall|i: int| 0 <= i < pairs.len() ==> num_plain(#[trigger] pairs[i].1),
        _ => true,
    }
}

proof fn lemma_escape_char_newline_free(c: char)
    ensures
        newline_free(escape_char(c)),
{
}

proof fn lemma_escape_newline_free(s: Seq<char>)
    ensures
        newline_free(escape_string(s)),
    decreases s.len(),
{
    if s.len() > 0 {
        lemma_escape_newline_free(s.drop_last());
        lemma_escape_char_newline_free(s.last());
        lemma_newline_free_concat(escape_string(s.drop_last()), escape_char(s.last()));
    }
}

/// A field looked up in a tree whose number lexemes are plain is plain too.
pub proof fn lemma_field_in_num_plain(pairs: Seq<(Seq<char>, JsonV)>, name: Seq<char>)
    requires
        forall|i: int| 0 <= i < pairs.len() ==> num_plain(#[trigger] pairs[i].1),
        field_in(pairs, name) is Some,
    ensures
        num_plain(field_in(pairs, name)->0),
    decreases pairs,
{
    if pairs.len() > 0 && pairs[0].0 != name {
        assert(forall|i: int| 0 <= i < pairs.drop_first().len()
            ==> #[trigger] pairs.drop_first()[i] == pairs[i + 1]);
        lemma_field_in_num_plain(pairs.drop_first(), name);
    }
}

/// Compact serialization stays on a single line: it contains no newline.
pub proof fn lemma_compact_single_line(v: JsonV)
    requires
        num_plain(v),
    ensures
        newline_free(compact(v)),
    decreases v,
{
    match v {
        JsonV::Null => {
            reveal_strlit("null");
        },
        JsonV::Bool(b) => {
            reveal_strlit("true");
            reveal_strlit("false");
        },
        JsonV::Num(s) => {
        },
        JsonV::Str(s) => {
            lemma_escape_newline_free(s);
            lemma_newline_free_concat(seq!['"'], escape_string(s));
            lemma_newline_free_concat(seq!['"'] + escape_string(s), seq!['"']);
        },
        JsonV::Arr(items) => {
            lemma_compact_items_single_line(items);
            lemma_newline_free_concat(seq!['['], compact_items(items));
            lemma_newline_free_concat(seq!['['] + compact_items(items), seq![']']);
        },
        JsonV::Obj(pairs) => {
            lemma_compact_entries_single_line(pairs);
            lemma_newline_free_concat(seq!['{'], compact_entries(pairs));
            lemma_newline_free_concat(seq!['{'] + compact_entries(pairs), seq!['}']);
        },
    }
}

proof fn lemma_compact_items_single_line(items: Seq<JsonV>)
    requires
        forall|i: int| 0 <= i < items.len() ==> num_plain(#[trigger] items[i]),
    ensures
        newline_free(compact_items(items)),
    decreases items,
{
    if items.len() == 0 {
    } else if items.len() == 1 {
        lemma_compact_single_line(items[0]);
    } else {
        assert(forall|i: int| 0 <= i < items.drop_last().len()
            ==> #[trigger] items.drop_last()[i] == items[i]);
        lemma_compact_items_single_line(items.drop_last());
        lemma_compact_single_line(items.last());
        lemma_newline_free_concat(compact_items(items.drop_last()), seq![',']);
        lemma_newline_free_concat(compact_items(items.drop_last()) + seq![','], compact(items.last()));
    }
}

proof fn lemma_compact_entries_single_line(pairs: Seq<(Seq<char>, JsonV)>)
    requires
        forall|i: int| 0 <= i < pairs.len() ==> num_plain(#[trigger] pairs[i].1),
    ensures
        newline_free(compact_entries(pairs)),
    decreases pairs,
{
    if pairs.len() == 0 {
    } else if pairs.len() == 1 {
        lemma_compact_entry_single_line(pairs[0]);
    } else {
        assert(forall|i: int| 0 <= i < pairs.drop_last().len()
            ==> #[trigger] pairs.drop_last()[i] == pairs[i]);
        lemma_compact_entries_single_line(pairs.drop_last());
        lemma_compact_entry_single_line(pairs.last());
        lemma_newline_free_concat(compact_entries(pairs.drop_last()), seq![',']);
        lemma_newline_free_concat(compact_entries(pairs.drop_last()) + seq![','], compact_entry(pairs.last()));
    }
}

proof fn lemma_compact_entry_single_line(p: (Seq<char>, JsonV))
    requires
        num_plain(p.1),
    ensures
        newline_free(compact_entry(p)),
    decreases p,
{
    lemma_escape_newline_free(p.0);
    lemma_compact_single_line(p.1);
    lemma_newline_free_concat(seq!['"'], escape_string(p.0));
    lemma_newline_free_concat(seq!['"'] + escape_string(p.0), seq!['"', ':']);
    lemma_newline_free_concat(seq!['"'] + escape_string(p.0) + seq!['"', ':'], compact(p.1));
}

/// Pretty serialization of a non-empty array or object spans several lines:
/// it contains a newline.
pub proof fn lemma_pretty_multiline(v: JsonV, ind: Seq<char>)
    requires
        (v matches JsonV::Arr(items) && items.len() > 0)
            || (v matches JsonV::Obj(pairs) && pairs.len() > 0),
    ensures
        pretty(v, ind).contains('\n'),
{
    assert(pretty(v, ind)[1] == '\n');
    assert(pretty(v, ind).len() > 1);
}

} // verus!
