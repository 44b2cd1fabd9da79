//! The crate's own JSON model.
//!
//! Response bodies and mutation bodies are held as `JsonValue`, a plain tree
//! of booleans, numbers, strings, arrays and objects.  Numbers that fit `i64`
//! are held exactly; any other number keeps its JSON text.  The mathematical
//! view of a value is `JsonV`, over `Seq` and `Seq<char>`.
//!
//! `pointer` follows the JSON Pointer addressing syntax: an empty pointer
//! names the whole document, every other pointer starts with `/`, tokens are
//! separated by `/`, and inside a token `~1` stands for `/` and `~0` for `~`.
//! Array tokens must be a canonical decimal index (no sign, no leading zero).

use vstd::prelude::*;

verus! {

broadcast use vstd::std_specs::vec::group_vec_axioms;

/// A JSON document fragment.
pub enum JsonValue {
    Null,
    Bool(bool),
    /// A number that fits a signed 64-bit integer.
    Int(i64),
    /// Any other number, kept as its JSON text.
    Num(String),
    Str(String),
    Arr(Vec<JsonValue>),
    Obj(Vec<(String, JsonValue)>),
}

/// The mathematical view of a `JsonValue`.
pub enum JsonV {
    Null,
    Bool(bool),
    Int(int),
    Num(Seq<char>),
    Str(Seq<char>),
    Arr(Seq<JsonV>),
    Obj(Seq<(Seq<char>, JsonV)>),
}

pub open spec fn jv_list(l: Seq<JsonValue>) -> Seq<JsonV>
    decreases l,
{
    if l.len() == 0 {
        Seq::empty()
    } else {
        seq![jv(l[0])] + jv_list(l.drop_first())
    }
}

pub open spec fn jv_obj(l: Seq<(String, JsonValue)>) -> Seq<(Seq<char>, JsonV)>
    decreases l,
{
    if l.len() == 0 {
        Seq::empty()
    } else {
        seq![(l[0].0@, jv(l[0].1))] + jv_obj(l.drop_first())
    }
}

pub open spec fn jv(v: JsonValue) -> JsonV
    decreases v,
{
    match v {
        JsonValue::Null => JsonV::Null,
        JsonValue::Bool(b) => JsonV::Bool(b),
        JsonValue::Int(i) => JsonV::Int(i as int),
        JsonValue::Num(s) => JsonV::Num(s@),
        JsonValue::Str(s) => JsonV::Str(s@),
        JsonValue::Arr(items) => JsonV::Arr(jv_list(items@)),
        JsonValue::Obj(fields) => JsonV::Obj(jv_obj(fields@)),
    }
}

impl View for JsonValue {
    type V = JsonV;

    open spec fn view(&self) -> JsonV {
        jv(*self)
    }
}

pub proof fn lemma_jv_list_index(l: Seq<JsonValue>, i: int)
    requires
        0 <= i < l.len(),
    ensures
        jv_list(l).len() == l.len(),
        jv_list(l)[i] == jv(l[i]),
    decreases l,
{
    if i > 0 {
        lemma_jv_list_index(l.drop_first(), i - 1);
    } else {
        lemma_jv_list_len(l);
    }
}

pub proof fn lemma_jv_list_len(l: Seq<JsonValue>)
    ensures
        jv_list(l).len() == l.len(),
    decreases l,
{
    if l.len() > 0 {
        lemma_jv_list_len(l.drop_first());
    }
}

pub proof fn lemma_jv_obj_index(l: Seq<(String, JsonValue)>, i: int)
    requires
        0 <= i < l.len(),
    ensures
        jv_obj(l).len() == l.len(),
        jv_obj(l)[i] == (l[i].0@, jv(l[i].1)),
    decreases l,
{
    if i > 0 {
        lemma_jv_obj_index(l.drop_first(), i - 1);
    } else {
        lemma_jv_obj_len(l);
    }
}

pub proof fn lemma_jv_obj_len(l: Seq<(String, JsonValue)>)
    ensures
        jv_obj(l).len() == l.len(),
    decreases l,
{
    if l.len() > 0 {
        lemma_jv_obj_len(l.drop_first());
    }
}

impl JsonValue {
    /// Clone with an identical mathematical view.
    pub fn dup(&self) -> (r: JsonValue)
        ensures
            r@ == self@,
        decreases *self,
    {
        match self {
            JsonValue::Null => JsonValue::Null,
            JsonValue::Bool(b) => JsonValue::Bool(*b),
            JsonValue::Int(i) => JsonValue::Int(*i),
            JsonValue::Num(s) => JsonValue::Num(s.clone()),
            JsonValue::Str(s) => JsonValue::Str(s.clone()),
            JsonValue::Arr(items) => {
                let mut out: Vec<JsonValue> = Vec::new();
                let mut i: usize = 0;
                proof {
                    lemma_jv_list_len(items@);
                }
                while i < items.len()
                    invariant
                        *self == JsonValue::Arr(*items),
                        i <= items.len(),
                        out@.len() == i as int,
                        jv_list(items@).len() == items@.len(),
                        forall|j: int| 0 <= j < i ==> jv_list(out@)[j] == jv_list(items@)[j],
                        jv_list(out@).len() == i as int,
                    decreases items.len() - i,
                {
                    proof {
                        assert(decreases_to!(*self => self->Arr_0));
                        assert(self->Arr_0 == *items);
                        assert(decreases_to!(*self => items@[i as int]));
                    }
                    let e = items[i].dup();
                    proof {
                        lemma_jv_list_push(out@, e);
                        lemma_jv_list_index(items@, i as int);
                    }
                    out.push(e);
                    i = i + 1;
                }
                proof {
                    assert(jv_list(out@) =~= jv_list(items@));
                }
                JsonValue::Arr(out)
            },
            JsonValue::Obj(fields) => {
                let mut out: Vec<(String, JsonValue)> = Vec::new();
                let mut i: usize = 0;
                proof {
                    lemma_jv_obj_len(fields@);
                }
                while i < fields.len()
                    invariant
                        *self == JsonValue::Obj(*fields),
                        i <= fields.len(),
                        out@.len() == i as int,
                        jv_obj(fields@).len() == fields@.len(),
                        forall|j: int| 0 <= j < i ==> jv_obj(out@)[j] == jv_obj(fields@)[j],
                        jv_obj(out@).len() == i as int,
                    decreases fields.len() - i,
                {
                    proof {
                        assert(decreases_to!(*self => self->Obj_0));
                        assert(self->Obj_0 == *fields);
                        assert(decreases_to!(*self => fields@[i as int].1));
                    }
                    let k = fields[i].0.clone();
                    let e = fields[i].1.dup();
                    proof {
                        lemma_jv_obj_push(out@, (k, e));
                        lemma_jv_obj_index(fields@, i as int);
                    }
                    out.push((k, e));
                    i = i + 1;
                }
                proof {
                    assert(jv_obj(out@) =~= jv_obj(fields@));
                }
                JsonValue::Obj(out)
            },
        }
    }
}

pub proof fn lemma_jv_list_push(l: Seq<JsonValue>, x: JsonValue)
    ensures
        jv_list(l.push(x)) == jv_list(l).push(jv(x)),
    decreases l,
{
    lemma_jv_list_len(l);
    lemma_jv_list_len(l.push(x));
    assert forall|i: int| 0 <= i < l.len() + 1 implies jv_list(l.push(x))[i] == jv_list(l).push(
        jv(x),
    )[i] by {
        lemma_jv_list_index(l.push(x), i);
        if i < l.len() {
            lemma_jv_list_index(l, i);
            assert(l.push(x)[i] == l[i]);
        }
    }
    assert(jv_list(l.push(x)) =~= jv_list(l).push(jv(x)));
}

pub proof fn lemma_jv_obj_push(l: Seq<(String, JsonValue)>, x: (String, JsonValue))
    ensures
        jv_obj(l.push(x)) == jv_obj(l).push((x.0@, jv(x.1))),
    decreases l,
{
    lemma_jv_obj_len(l);
    lemma_jv_obj_len(l.push(x));
    assert forall|i: int| 0 <= i < l.len() + 1 implies jv_obj(l.push(x))[i] == jv_obj(l).push(
        (x.0@, jv(x.1)),
    )[i] by {
        lemma_jv_obj_index(l.push(x), i);
        if i < l.len() {
            lemma_jv_obj_index(l, i);
            assert(l.push(x)[i] == l[i]);
        }
    }
    assert(jv_obj(l.push(x)) =~= jv_obj(l).push((x.0@, jv(x.1))));
}

/// First-match lookup among an object's fields.
pub open spec fn obj_get(fields: Seq<(Seq<char>, JsonV)>, key: Seq<char>) -> Option<JsonV>
    decreases fields,
{
    if fields.len() == 0 {
        None
    } else if fields[0].0 == key {
        Some(fields[0].1)
    } else {
        obj_get(fields.drop_first(), key)
    }
}

pub proof fn lemma_obj_get_skip(fields: Seq<(Seq<char>, JsonV)>, key: Seq<char>, i: int)
    requires
        0 <= i <= fields.len(),
        forall|j: int| 0 <= j < i ==> fields[j].0 != key,
    ensures
        obj_get(fields, key) == obj_get(fields.skip(i), key),
    decreases i,
{
    if i > 0 {
        assert(fields.drop_first().skip(i - 1) =~= fields.skip(i));
        lemma_obj_get_skip(fields.drop_first(), key, i - 1);
    } else {
        assert(fields.skip(0) =~= fields);
    }
}

/// First-match lookup of a key among an object's fields.
pub fn obj_find<'a>(fields: &'a Vec<(String, JsonValue)>, key: &str) -> (r: Option<
    &'a JsonValue,
>)
    ensures
        match r {
            Some(x) => obj_get(jv_obj(fields@), key@) == Some(x@),
            None => obj_get(jv_obj(fields@), key@) is None,
        },
{
    proof {
        lemma_jv_obj_len(fields@);
    }
    let mut i: usize = 0;
    while i < fields.len()
        invariant
            jv_obj(fields@).len() == fields@.len(),
            i <= fields@.len(),
            forall|j: int| 0 <= j < i ==> jv_obj(fields@)[j].0 != key@,
        decreases fields.len() - i,
    {
        proof {
            lemma_jv_obj_index(fields@, i as int);
        }
        if crate::strutil::str_eq(fields[i].0.as_str(), key) {
            proof {
                lemma_obj_get_skip(jv_obj(fields@), key@, i as int);
                assert(jv_obj(fields@).skip(i as int)[0] == jv_obj(fields@)[i as int]);
                assert(jv_obj(fields@).skip(i as int).len() > 0);
            }
            return Some(&fields[i].1);
        }
        i = i + 1;
    }
    proof {
        lemma_obj_get_skip(jv_obj(fields@), key@, fields@.len() as int);
        assert(jv_obj(fields@).skip(fields@.len() as int).len() == 0);
    }
    None
}

/// Replace every non-overlapping occurrence of the two-character pattern
/// `a b` with `r`, scanning left to right, as `str::replace` does.
pub open spec fn replace2(s: Seq<char>, a: char, b: char, r: char) -> Seq<char>
    decreases s.len(),
{
    if s.len() < 2 {
        s
    } else if s[0] == a && s[1] == b {
        seq![r] + replace2(s.skip(2), a, b, r)
    } else {
        seq![s[0]] + replace2(s.drop_first(), a, b, r)
    }
}

/// Executable form of `replace2`.
pub fn replace2_exec(s: &str, a: char, b: char, r: char) -> (o: String)
    ensures
        o@ == replace2(s@, a, b, r),
    decreases s@.len(),
{
    let n: usize = s.unicode_len();
    if n < 2 {
        return s.to_owned();
    }
    let c0 = s.get_char(0);
    let c1 = s.get_char(1);
    let mut out = String::new();
    if c0 == a && c1 == b {
        out.push(r);
        let rest = replace2_exec(s.substring_char(2, n), a, b, r);
        out.append(rest.as_str());
        proof {
            assert(s@.subrange(2, n as int) =~= s@.skip(2));
            assert(out@ =~= replace2(s@, a, b, r));
        }
    } else {
        out.push(c0);
        let rest = replace2_exec(s.substring_char(1, n), a, b, r);
        out.append(rest.as_str());
        proof {
            assert(s@.subrange(1, n as int) =~= s@.drop_first());
            assert(out@ =~= replace2(s@, a, b, r));
        }
    }
    out
}

/// Unescaping of one pointer token: `~1` stands for `/`, then `~0` for `~`.
pub open spec fn unescape(t: Seq<char>) -> Seq<char> {
    replace2(replace2(t, '~', '1', '/'), '~', '0', '~')
}

/// Executable unescaping of one pointer token.
pub fn unescape_token(t: &str) -> (o: String)
    ensures
        o@ == unescape(t@),
{
    let first = replace2_exec(t, '~', '1', '/');
    replace2_exec(first.as_str(), '~', '0', '~')
}

/// A canonical decimal array index: non-empty, digits only, no leading zero,
/// and within `usize` range.
pub open spec fn parse_index_spec(t: Seq<char>) -> Option<int> {
    if t.len() > 0 && crate::strutil::all_digits(t) && (t.len() == 1 || t[0] != '0')
        && crate::strutil::dec_val(t) <= usize::MAX {
        Some(crate::strutil::dec_val(t) as int)
    } else {
        None
    }
}

/// Executable parse of a canonical decimal array index.
pub fn parse_index(t: &str) -> (r: Option<usize>)
    ensures
        match r {
            Some(v) => parse_index_spec(t@) == Some(v as int),
            None => parse_index_spec(t@) is None,
        },
{
    let n: usize = t.unicode_len();
    if n == 0 {
        return None;
    }
    if n > 1 && t.get_char(0) == '0' {
        return None;
    }
    crate::strutil::parse_dec_usize(t)
}

/// The token list of a pointer that starts with `/`: the fragments between
/// the slashes, each unescaped.
pub open spec fn pointer_tokens(path: Seq<char>) -> Seq<Seq<char>> {
    crate::strutil::split_on(path, '/').drop_first().map_values(|t: Seq<char>| unescape(t))
}

/// Descend through a value, one token at a time.
pub open spec fn descend(j: JsonV, toks: Seq<Seq<char>>) -> Option<JsonV>
    decreases toks.len(),
{
    if toks.len() == 0 {
        Some(j)
    } else {
        match j {
            JsonV::Obj(fields) => match obj_get(fields, toks[0]) {
                Some(x) => descend(x, toks.drop_first()),
                None => None,
            },
            JsonV::Arr(items) => match parse_index_spec(toks[0]) {
                Some(i) => if i < items.len() {
                    descend(items[i], toks.drop_first())
                } else {
                    None
                },
                None => None,
            },
            _ => None,
        }
    }
}

/// JSON Pointer resolution: the empty pointer names the whole value, any
/// other pointer must start with `/` and is followed token by token.
pub open spec fn spec_pointer(j: JsonV, path: Seq<char>) -> Option<JsonV> {
    if path.len() == 0 {
        Some(j)
    } else if path[0] != '/' {
        None
    } else {
        descend(j, pointer_tokens(path))
    }
}

impl JsonValue {
    /// Look up a value by JSON Pointer.
    pub fn pointer<'a>(&'a self, path: &str) -> (r: Option<&'a JsonValue>)
        ensures
            match r {
                Some(x) => spec_pointer(self@, path@) == Some(x@),
                None => spec_pointer(self@, path@) is None,
            },
    {
        let n: usize = path.unicode_len();
        if n == 0 {
            return Some(self);
        }
        if path.get_char(0) != '/' {
            return None;
        }
        let raw = crate::strutil::split_str(path, '/');
        let ghost toks = pointer_tokens(path@);
        proof {
            crate::strutil::lemma_split_on_nonempty(path@, '/');
            assert(toks.len() == raw@.len() - 1);
        }
        let mut cur: &JsonValue = self;
        let mut k: usize = 0;
        let m: usize = raw.len() - 1;
        proof {
            assert(toks.skip(0) =~= toks);
        }
        while k < m
            invariant
                m == raw@.len() - 1,
                toks == pointer_tokens(path@),
                toks.len() == m as int,
                forall|j: int| 0 <= j < raw@.len() ==> raw@[j]@ == crate::strutil::split_on(
                    path@,
                    '/',
                )[j],
                k <= m,
                descend(self@, toks) == descend(cur@, toks.skip(k as int)),
            decreases m - k,
        {
            let tok = unescape_token(raw[k + 1].as_str());
            proof {
                assert(toks[k as int] == unescape(crate::strutil::split_on(path@, '/')[k as int
                    + 1]));
                assert(tok@ == toks[k as int]);
                assert(toks.skip(k as int)[0] == toks[k as int]);
                assert(toks.skip(k as int).drop_first() =~= toks.skip(k as int + 1));
            }
            match cur {
                JsonValue::Obj(fields) => {
                    match obj_find(fields, tok.as_str()) {
                        Some(x) => {
                            cur = x;
                        },
                        None => {
                            return None;
                        },
                    }
                },
                JsonValue::Arr(items) => {
                    proof {
                        lemma_jv_list_len(items@);
                    }
                    match parse_index(tok.as_str()) {
                        Some(i) => {
                            if i < items.len() {
                                proof {
                                    lemma_jv_list_index(items@, i as int);
                                }
                                cur = &items[i];
                            } else {
                                return None;
                            }
                        },
                        None => {
                            return None;
                        },
                    }
                },
                _ => {
                    return None;
                },
            }
            k = k + 1;
        }
        proof {
            assert(toks.skip(m as int).len() == 0);
        }
        Some(cur)
    }
}


/// The escape of one character inside a JSON string: quote and backslash are
/// escaped, control characters use the short escapes `\\b`, `\\t`, `\\n`,
/// `\\f`, `\\r` or the form `\\u00XX`; all other characters stand for
/// themselves.
pub open spec fn esc_char(c: char) -> Seq<char> {
    if c == '"' {
        seq!['\\', '"']
    } else if c == '\\' {
        seq!['\\', '\\']
    } else if c == '\u{8}' {
        seq!['\\', 'b']
    } else if c == '\t' {
        seq!['\\', 't']
    } else if c == '\n' {
        seq!['\\', 'n']
    } else if c == '\u{c}' {
        seq!['\\', 'f']
    } else if c == '\r' {
        seq!['\\', 'r']
    } else if (c as u32) < 32 {
        seq!['\\', 'u', '0', '0', hex_digit(((c as u32) / 16) as nat), hex_digit(
            ((c as u32) % 16) as nat,
        )]
    } else {
        seq![c]
    }
}

/// The lower-case hexadecimal digit of a value below sixteen.
pub open spec fn hex_digit(n: nat) -> char {
    if n < 10 {
        ((48 + n) as u8) as char
    } else {
        ((87 + n) as u8) as char
    }
}

/// The escaped body of a JSON string.
pub open spec fn esc(s: Seq<char>) -> Seq<char>
    decreases s.len(),
{
    if s.len() == 0 {
        Seq::empty()
    } else {
        esc_char(s[0]) + esc(s.drop_first())
    }
}

/// The JSON text of a value: compact form, no added whitespace.
pub open spec fn text_of(j: JsonV) -> Seq<char>
    decreases j,
{
    match j {
        JsonV::Null => seq!['n', 'u', 'l', 'l'],
        JsonV::Bool(b) => if b {
            seq!['t', 'r', 'u', 'e']
        } else {
            seq!['f', 'a', 'l', 's', 'e']
        },
        JsonV::Int(i) => crate::strutil::dec_str_signed(i),
        JsonV::Num(t) => t,
        JsonV::Str(t) => seq!['"'] + esc(t) + seq!['"'],
        JsonV::Arr(items) => seq!['['] + texts_of_list(items) + seq![']'],
        JsonV::Obj(fields) => seq!['{'] + texts_of_obj(fields) + seq!['}'],
    }
}

/// Comma-joined element texts.
pub open spec fn texts_of_list(l: Seq<JsonV>) -> Seq<char>
    decreases l,
{
    if l.len() == 0 {
        Seq::empty()
    } else if l.len() == 1 {
        text_of(l[0])
    } else {
        text_of(l[0]) + seq![','] + texts_of_list(l.drop_first())
    }
}

/// Comma-joined `"key":value` member texts.
pub open spec fn texts_of_obj(l: Seq<(Seq<char>, JsonV)>) -> Seq<char>
    decreases l,
{
    if l.len() == 0 {
        Seq::empty()
    } else {
        let head = seq!['"'] + esc(l[0].0) + seq!['"', ':'] + text_of(l[0].1);
        if l.len() == 1 {
            head
        } else {
            head + seq![','] + texts_of_obj(l.drop_first())
        }
    }
}

/// Append the escape of one character.
fn push_esc_char(c: char, out: &mut String)
    ensures
        final(out)@ == old(out)@ + esc_char(c),
{
    if c == '"' {
        out.push('\\');
        out.push('"');
    } else if c == '\\' {
        out.push('\\');
        out.push('\\');
    } else if c == '\u{8}' {
        out.push('\\');
        out.push('b');
    } else if c == '\t' {
        out.push('\\');
        out.push('t');
    } else if c == '\n' {
        out.push('\\');
        out.push('n');
    } else if c == '\u{c}' {
        out.push('\\');
        out.push('f');
    } else if c == '\r' {
        out.push('\\');
        out.push('r');
    } else if (c as u32) < 32 {
        out.push('\\');
        out.push('u');
        out.push('0');
        out.push('0');
        let hi: u32 = c as u32 / 16;
        let lo: u32 = c as u32 % 16;
        out.push(if hi < 10 {
            (48 + hi as u8) as char
        } else {
            (87 + hi as u8) as char
        });
        out.push(if lo < 10 {
            (48 + lo as u8) as char
        } else {
            (87 + lo as u8) as char
        });
    } else {
        out.push(c);
    }
    proof {
        assert(final(out)@ =~= old(out)@ + esc_char(c));
    }
}

/// Append the escaped body of a string.
fn push_esc(s: &str, out: &mut String)
    ensures
        final(out)@ == old(out)@ + esc(s@),
{
    let n: usize = s.unicode_len();
    let mut i: usize = 0;
    proof {
        assert(esc(s@.take(0)) =~= Seq::<char>::empty());
        assert(old(out)@ + Seq::<char>::empty() =~= old(out)@);
    }
    while i < n
        invariant
            n == s@.len(),
            i <= n,
            out@ == old(out)@ + esc(s@.take(i as int)),
        decreases n - i,
    {
        push_esc_char(s.get_char(i), out);
        i = i + 1;
        proof {
            lemma_esc_snoc(s@.take(i as int));
            assert(s@.take(i as int).drop_last() =~= s@.take(i as int - 1));
            assert(out@ =~= old(out)@ + esc(s@.take(i as int)));
        }
    }
    proof {
        assert(s@.take(n as int) =~= s@);
    }
}

pub proof fn lemma_esc_snoc(s: Seq<char>)
    requires
        s.len() > 0,
    ensures
        esc(s) == esc(s.drop_last()) + esc_char(s.last()),
    decreases s.len(),
{
    if s.len() == 1 {
        assert(s.drop_last() =~= Seq::<char>::empty());
        assert(s.drop_first() =~= Seq::<char>::empty());
        assert(esc(s) =~= esc(s.drop_last()) + esc_char(s.last()));
    } else {
        lemma_esc_snoc(s.drop_first());
        assert(s.drop_first().drop_last() =~= s.drop_last().drop_first());
        assert(s.drop_last()[0] == s[0]);
        assert(s.drop_first().last() == s.last());
        assert(esc(s) =~= esc(s.drop_last()) + esc_char(s.last()));
    }
}

impl JsonValue {
    /// Append the JSON text of the value.
    pub fn write_text(&self, out: &mut String)
        ensures
            final(out)@ == old(out)@ + text_of(self@),
        decreases *self,
    {
        match self {
            JsonValue::Null => {
                out.append("null");
                proof {
                    reveal_strlit("null");
                    assert(final(out)@ =~= old(out)@ + text_of(self@));
                }
            },
            JsonValue::Bool(b) => {
                if *b {
                    out.append("true");
                    proof {
                        reveal_strlit("true");
                        assert(final(out)@ =~= old(out)@ + text_of(self@));
                    }
                } else {
                    out.append("false");
                    proof {
                        reveal_strlit("false");
                        assert(final(out)@ =~= old(out)@ + text_of(self@));
                    }
                }
            },
            JsonValue::Int(i) => {
                let t = crate::strutil::i64_to_string(*i);
                out.append(t.as_str());
            },
            JsonValue::Num(t) => {
                out.append(t.as_str());
            },
            JsonValue::Str(t) => {
                out.push('"');
                push_esc(t.as_str(), out);
                out.push('"');
                proof {
                    assert(final(out)@ =~= old(out)@ + text_of(self@));
                }
            },
            JsonValue::Arr(items) => {
                out.push('[');
                let ghost l = jv_list(items@);
                proof {
                    lemma_jv_list_len(items@);
                }
                let mut i: usize = 0;
                while i < items.len()
                    invariant
                        *self == JsonValue::Arr(*items),
                        l == jv_list(items@),
                        l.len() == items@.len(),
                        i <= items@.len(),
                        i == 0 ==> out@ == old(out)@ + seq!['['],
                        i > 0 ==> out@ == old(out)@ + seq!['['] + texts_of_list(
                            l.take(i as int),
                        ),
                    decreases items@.len() - i,
                {
                    if i > 0 {
                        out.push(',');
                    }
                    proof {
                        assert(decreases_to!(*self => self->Arr_0));
                        assert(self->Arr_0 == *items);
                        lemma_jv_list_index(items@, i as int);
                    }
                    items[i].write_text(out);
                    i = i + 1;
                    proof {
                        lemma_texts_of_list_snoc(l.take(i as int));
                        assert(l.take(i as int).drop_last() =~= l.take(i as int - 1));
                        assert(l.take(i as int).last() == l[i as int - 1]);
                        assert(out@ =~= old(out)@ + seq!['['] + texts_of_list(l.take(i as int)));
                    }
                }
                out.push(']');
                proof {
                    assert(l.take(l.len() as int) =~= l);
                    assert(final(out)@ =~= old(out)@ + text_of(self@));
                }
            },
            JsonValue::Obj(fields) => {
                out.push('{');
                let ghost l = jv_obj(fields@);
                proof {
                    lemma_jv_obj_len(fields@);
                }
                let mut i: usize = 0;
                while i < fields.len()
                    invariant
                        *self == JsonValue::Obj(*fields),
                        l == jv_obj(fields@),
                        l.len() == fields@.len(),
                        i <= fields@.len(),
                        i == 0 ==> out@ == old(out)@ + seq!['{'],
                        i > 0 ==> out@ == old(out)@ + seq!['{'] + texts_of_obj(l.take(i as int)),
                    decreases fields@.len() - i,
                {
                    if i > 0 {
                        out.push(',');
                    }
                    proof {
                        assert(decreases_to!(*self => self->Obj_0));
                        assert(self->Obj_0 == *fields);
                        lemma_jv_obj_index(fields@, i as int);
                    }
                    out.push('"');
                    push_esc(fields[i].0.as_str(), out);
                    out.push('"');
                    out.push(':');
                    fields[i].1.write_text(out);
                    i = i + 1;
                    proof {
                        lemma_texts_of_obj_snoc(l.take(i as int));
                        assert(l.take(i as int).drop_last() =~= l.take(i as int - 1));
                        assert(l.take(i as int).last() == l[i as int - 1]);
                        assert(out@ =~= old(out)@ + seq!['{'] + texts_of_obj(l.take(i as int)));
                    }
                }
                out.push('}');
                proof {
                    assert(l.take(l.len() as int) =~= l);
                    assert(final(out)@ =~= old(out)@ + text_of(self@));
                }
            },
        }
    }

    /// The JSON text of the value.
    pub fn to_text(&self) -> (r: String)
        ensures
            r@ == text_of(self@),
    {
        let mut out = String::new();
        self.write_text(&mut out);
        proof {
            assert(out@ =~= text_of(self@));
        }
        out
    }
}

pub proof fn lemma_texts_of_list_snoc(l: Seq<JsonV>)
    requires
        l.len() > 0,
    ensures
        l.len() == 1 ==> texts_of_list(l) == text_of(l[0]),
        l.len() > 1 ==> texts_of_list(l) == texts_of_list(l.drop_last()) + seq![','] + text_of(
            l.last(),
        ),
    decreases l.len(),
{
    if l.len() > 1 {
        lemma_texts_of_list_snoc(l.drop_first());
        assert(l.drop_first().drop_last() =~= l.drop_last().drop_first());
        assert(l.drop_last()[0] == l[0]);
        if l.len() == 2 {
            assert(texts_of_list(l) =~= texts_of_list(l.drop_last()) + seq![','] + text_of(
                l.last(),
            ));
        } else {
            assert(texts_of_list(l) =~= texts_of_list(l.drop_last()) + seq![','] + text_of(
                l.last(),
            ));
        }
    }
}

pub proof fn lemma_texts_of_obj_snoc(l: Seq<(Seq<char>, JsonV)>)
    requires
        l.len() > 0,
    ensures
        l.len() == 1 ==> texts_of_obj(l) == seq!['"'] + esc(l[0].0) + seq!['"', ':'] + text_of(
            l[0].1,
        ),
        l.len() > 1 ==> texts_of_obj(l) == texts_of_obj(l.drop_last()) + seq![','] + (seq!['"']
            + esc(l.last().0) + seq!['"', ':'] + text_of(l.last().1)),
    decreases l.len(),
{
    if l.len() > 1 {
        lemma_texts_of_obj_snoc(l.drop_first());
        assert(l.drop_first().drop_last() =~= l.drop_last().drop_first());
        assert(l.drop_last()[0] == l[0]);
        assert(texts_of_obj(l) =~= texts_of_obj(l.drop_last()) + seq![','] + (seq!['"'] + esc(
            l.last().0,
        ) + seq!['"', ':'] + text_of(l.last().1)));
    }
}

} // verus!
