//! Verified string helpers: case folding, equality and prefix tests,
//! splitting, decimal formatting and parsing.  All contracts are stated over
//! the `Seq<char>` view of strings.

use vstd::prelude::*;
use vstd::string::StrSliceExecFns;
use vstd::string::StringExecFns;

verus! {

/// Relies on std's `String::push`: appends the given character to the end of
/// the string.
pub assume_specification[ String::push ](s: &mut String, c: char)
    ensures
        final(s)@ == old(s)@.push(c),
;

/// ASCII lower-casing of one character; other characters are unchanged.
pub open spec fn fold_char(c: char) -> char {
    if 'A' <= c && c <= 'Z' {
        (((c as u8) + 32) as char)
    } else {
        c
    }
}

/// Character-wise ASCII lower-casing of a sequence, the spec-level meaning of
/// case-insensitive comparison throughout the crate.
pub open spec fn ascii_fold(s: Seq<char>) -> Seq<char> {
    s.map_values(|c: char| fold_char(c))
}

/// Executable ASCII lower-casing of one character.
pub fn fold_char_exec(c: char) -> (r: char)
    ensures
        r == fold_char(c),
{
    if 'A' <= c && c <= 'Z' {
        ((c as u8) + 32) as char
    } else {
        c
    }
}

/// String equality by characters.
pub fn str_eq(a: &str, b: &str) -> (r: bool)
    ensures
        r == (a@ == b@),
{
    let an: usize = a.unicode_len();
    let bn: usize = b.unicode_len();
    if an != bn {
        return false;
    }
    let mut i: usize = 0;
    while i < an
        invariant
            an == a@.len(),
            bn == b@.len(),
            an == bn,
            i <= an,
            forall|j: int| 0 <= j < i ==> a@[j] == b@[j],
        decreases an - i,
    {
        if a.get_char(i) != b.get_char(i) {
            return false;
        }
        i = i + 1;
    }
    proof {
        assert(a@ =~= b@);
    }
    true
}

/// Case-insensitive (ASCII) string equality.
pub fn str_eq_fold(a: &str, b: &str) -> (r: bool)
    ensures
        r == (ascii_fold(a@) == ascii_fold(b@)),
{
    let an: usize = a.unicode_len();
    let bn: usize = b.unicode_len();
    if an != bn {
        proof {
            assert(ascii_fold(a@).len() == an);
            assert(ascii_fold(b@).len() == bn);
        }
        return false;
    }
    let mut i: usize = 0;
    while i < an
        invariant
            an == a@.len(),
            bn == b@.len(),
            an == bn,
            i <= an,
            forall|j: int| 0 <= j < i ==> fold_char(a@[j]) == fold_char(b@[j]),
        decreases an - i,
    {
        if fold_char_exec(a.get_char(i)) != fold_char_exec(b.get_char(i)) {
            proof {
                assert(ascii_fold(a@)[i as int] == fold_char(a@[i as int]));
                assert(ascii_fold(b@)[i as int] == fold_char(b@[i as int]));
            }
            return false;
        }
        i = i + 1;
    }
    proof {
        assert(ascii_fold(a@) =~= ascii_fold(b@));
    }
    true
}

/// ASCII lower-casing of a whole string.
pub fn fold_string(s: &str) -> (r: String)
    ensures
        r@ == ascii_fold(s@),
{
    let n: usize = s.unicode_len();
    let mut out = String::new();
    let mut i: usize = 0;
    while i < n
        invariant
            n == s@.len(),
            i <= n,
            out@ == ascii_fold(s@.take(i as int)),
        decreases n - i,
    {
        out.push(fold_char_exec(s.get_char(i)));
        i = i + 1;
        proof {
            assert(out@ =~= ascii_fold(s@.take(i as int)));
        }
    }
    proof {
        assert(s@.take(n as int) =~= s@);
    }
    out
}

/// Whether `p` is a prefix of `s`.
pub fn str_starts_with(s: &str, p: &str) -> (r: bool)
    ensures
        r == p@.is_prefix_of(s@),
{
    let sn: usize = s.unicode_len();
    let pn: usize = p.unicode_len();
    if pn > sn {
        return false;
    }
    let mut i: usize = 0;
    while i < pn
        invariant
            sn == s@.len(),
            pn == p@.len(),
            pn <= sn,
            i <= pn,
            forall|j: int| 0 <= j < i ==> s@[j] == p@[j],
        decreases pn - i,
    {
        if s.get_char(i) != p.get_char(i) {
            return false;
        }
        i = i + 1;
    }
    proof {
        assert(s@.subrange(0, pn as int) =~= p@);
    }
    true
}

/// Whether the string contains the character.
pub fn str_contains_char(s: &str, c: char) -> (r: bool)
    ensures
        r == s@.contains(c),
{
    let n: usize = s.unicode_len();
    let mut i: usize = 0;
    while i < n
        invariant
            n == s@.len(),
            i <= n,
            forall|j: int| 0 <= j < i ==> s@[j] != c,
        decreases n - i,
    {
        if s.get_char(i) == c {
            return true;
        }
        i = i + 1;
    }
    false
}

/// Splitting a sequence on a delimiter, as `str::split` does: the result is
/// never empty, and delimiters at the edges produce empty fragments.
pub open spec fn split_on(s: Seq<char>, d: char) -> Seq<Seq<char>>
    decreases s.len(),
{
    if s.len() == 0 {
        seq![Seq::<char>::empty()]
    } else if s[0] == d {
        seq![Seq::<char>::empty()] + split_on(s.drop_first(), d)
    } else {
        let r = split_on(s.drop_first(), d);
        seq![seq![s[0]] + r[0]] + r.drop_first()
    }
}

pub proof fn lemma_split_on_nonempty(s: Seq<char>, d: char)
    ensures
        split_on(s, d).len() >= 1,
    decreases s.len(),
{
    if s.len() > 0 {
        lemma_split_on_nonempty(s.drop_first(), d);
    }
}

/// If the first delimiter stands at `i`, the split is the prefix before it
/// followed by the split of the suffix after it.
pub proof fn lemma_split_at_first(s: Seq<char>, d: char, i: int)
    requires
        0 <= i < s.len(),
        s[i] == d,
        forall|j: int| 0 <= j < i ==> s[j] != d,
    ensures
        split_on(s, d) == seq![s.subrange(0, i)] + split_on(s.skip(i + 1), d),
    decreases i,
{
    lemma_split_on_nonempty(s.drop_first(), d);
    if i == 0 {
        assert(s.subrange(0, 0) =~= Seq::<char>::empty());
        assert(s.skip(1) =~= s.drop_first());
    } else {
        lemma_split_at_first(s.drop_first(), d, i - 1);
        let r = split_on(s.drop_first(), d);
        assert(r == seq![s.drop_first().subrange(0, i - 1)] + split_on(
            s.drop_first().skip(i),
            d,
        ));
        assert(seq![s[0]] + s.drop_first().subrange(0, i - 1) =~= s.subrange(0, i));
        assert(s.drop_first().skip(i) =~= s.skip(i + 1));
        lemma_split_on_nonempty(s.skip(i + 1), d);
        assert(split_on(s, d) =~= seq![s.subrange(0, i)] + split_on(s.skip(i + 1), d));
    }
}

/// If no delimiter occurs, the split is the whole sequence alone.
pub proof fn lemma_split_none(s: Seq<char>, d: char)
    requires
        forall|j: int| 0 <= j < s.len() ==> s[j] != d,
    ensures
        split_on(s, d) == seq![s],
    decreases s.len(),
{
    if s.len() > 0 {
        lemma_split_none(s.drop_first(), d);
        assert(seq![s[0]] + s.drop_first() =~= s);
        assert(split_on(s, d) =~= seq![s]);
    } else {
        assert(s =~= Seq::<char>::empty());
        assert(split_on(s, d) =~= seq![s]);
    }
}

/// Index of the first occurrence of `c`, if any.
pub fn find_char(s: &str, c: char) -> (r: Option<usize>)
    ensures
        match r {
            Some(i) => i < s@.len() && s@[i as int] == c && forall|j: int|
                0 <= j < i ==> s@[j] != c,
            None => forall|j: int| 0 <= j < s@.len() ==> s@[j] != c,
        },
{
    let n: usize = s.unicode_len();
    let mut i: usize = 0;
    while i < n
        invariant
            n == s@.len(),
            i <= n,
            forall|j: int| 0 <= j < i ==> s@[j] != c,
        decreases n - i,
    {
        if s.get_char(i) == c {
            return Some(i);
        }
        i = i + 1;
    }
    None
}

/// Split a string on a delimiter, as `str::split` does.
pub fn split_str(s: &str, d: char) -> (r: Vec<String>)
    ensures
        r@.len() == split_on(s@, d).len(),
        forall|i: int| 0 <= i < r@.len() ==> r@[i]@ == split_on(s@, d)[i],
    decreases s@.len(),
{
    match find_char(s, d) {
        None => {
            proof {
                lemma_split_none(s@, d);
            }
            let mut r: Vec<String> = Vec::new();
            r.push(s.to_owned());
            r
        },
        Some(i) => {
            proof {
                lemma_split_at_first(s@, d, i as int);
            }
            let n: usize = s.unicode_len();
            let head = s.substring_char(0, i);
            let rest = s.substring_char(i + 1, n);
            let mut r = split_str(rest, d);
            r.insert(0, head.to_owned());
            r
        },
    }
}

/// The decimal digits of `n`, most significant first.
pub open spec fn dec_str(n: nat) -> Seq<char>
    decreases n,
{
    if n < 10 {
        seq![((48 + n) as u8) as char]
    } else {
        dec_str(n / 10).push(((48 + n % 10) as u8) as char)
    }
}

/// The decimal rendering of a signed value: a minus sign for negatives.
pub open spec fn dec_str_signed(i: int) -> Seq<char> {
    if i < 0 {
        seq!['-'] + dec_str((-i) as nat)
    } else {
        dec_str(i as nat)
    }
}

/// Append the decimal digits of `n`.
pub fn push_dec(n: u64, out: &mut String)
    ensures
        final(out)@ == old(out)@ + dec_str(n as nat),
    decreases n,
{
    if n >= 10 {
        push_dec(n / 10, out);
    }
    let d: u64 = n % 10;
    out.push((48 + d as u8) as char);
    proof {
        if n < 10 {
            assert(final(out)@ =~= old(out)@ + dec_str(n as nat));
        } else {
            assert(final(out)@ =~= old(out)@ + dec_str(n as nat));
        }
    }
}

/// Decimal rendering of an unsigned 64-bit value.
pub fn u64_to_string(n: u64) -> (r: String)
    ensures
        r@ == dec_str(n as nat),
{
    let mut out = String::new();
    push_dec(n, &mut out);
    proof {
        assert(out@ =~= dec_str(n as nat));
    }
    out
}

/// Decimal rendering of a signed 64-bit value.
pub fn i64_to_string(n: i64) -> (r: String)
    ensures
        r@ == dec_str_signed(n as int),
{
    let mut out = String::new();
    let m: u64 = if n < 0 {
        out.push('-');
        ((-(n as i128)) as u64)
    } else {
        n as u64
    };
    push_dec(m, &mut out);
    proof {
        assert(out@ =~= dec_str_signed(n as int));
    }
    out
}

/// Decimal rendering of a signed 32-bit value.
pub fn i32_to_string(n: i32) -> (r: String)
    ensures
        r@ == dec_str_signed(n as int),
{
    i64_to_string(n as i64)
}

/// The rendering of a boolean, `"true"` or `"false"`.
pub fn bool_to_string(b: bool) -> (r: String)
    ensures
        b ==> r@ == "true"@,
        !b ==> r@ == "false"@,
{
    if b {
        String::from_str("true")
    } else {
        String::from_str("false")
    }
}

/// Whether every character is a decimal digit.
pub open spec fn all_digits(s: Seq<char>) -> bool {
    forall|j: int| 0 <= j < s.len() ==> '0' <= #[trigger] s[j] && s[j] <= '9'
}

/// The numeric value of one digit character; other characters count zero.
pub open spec fn digit_val(c: char) -> nat {
    if '0' <= c && c <= '9' {
        (c as int - 48) as nat
    } else {
        0
    }
}

/// The numeric value of a digit string, most significant first.
pub open spec fn dec_val(s: Seq<char>) -> nat
    decreases s.len(),
{
    if s.len() == 0 {
        0
    } else {
        dec_val(s.drop_last()) * 10 + digit_val(s.last())
    }
}

/// Parse a non-empty all-digit string into a `usize`; `None` on any other
/// shape or on overflow.
pub fn parse_dec_usize(s: &str) -> (r: Option<usize>)
    ensures
        match r {
            Some(v) => s@.len() > 0 && all_digits(s@) && dec_val(s@) == v as nat,
            None => s@.len() == 0 || !all_digits(s@) || dec_val(s@) > usize::MAX,
        },
{
    let n: usize = s.unicode_len();
    if n == 0 {
        return None;
    }
    let mut acc: usize = 0;
    let mut i: usize = 0;
    while i < n
        invariant
            n == s@.len(),
            i <= n,
            all_digits(s@.take(i as int)),
            acc as nat == dec_val(s@.take(i as int)),
        decreases n - i,
    {
        let c = s.get_char(i);
        if c < '0' || c > '9' {
            return None;
        }
        let d: u8 = (c as u8) - 48;
        if acc > (usize::MAX - d as usize) / 10 {
            proof {
                assert(acc * 10 + d as usize > usize::MAX) by (nonlinear_arith)
                    requires
                        acc > (usize::MAX - d as usize) / 10,
                        d <= 9,
                ;
                assert(s@.take(i as int + 1).drop_last() =~= s@.take(i as int));
                assert(dec_val(s@.take(i as int + 1)) > usize::MAX);
                lemma_dec_val_overflow(s@, i as int);
            }
            return None;
        }
        proof {
            assert(acc * 10 + d as usize <= usize::MAX) by (nonlinear_arith)
                requires
                    acc <= (usize::MAX - d as usize) / 10,
                    d <= 9,
            ;
        }
        acc = acc * 10 + d as usize;
        i = i + 1;
        proof {
            assert(s@.take(i as int).drop_last() =~= s@.take(i as int - 1));
            assert(all_digits(s@.take(i as int)));
        }
    }
    proof {
        assert(s@.take(n as int) =~= s@);
    }
    Some(acc)
}

/// If a prefix already exceeds the value range, the whole digit string does.
pub proof fn lemma_dec_val_overflow(s: Seq<char>, i: int)
    requires
        0 <= i < s.len(),
        dec_val(s.take(i + 1)) > usize::MAX,
    ensures
        dec_val(s) > usize::MAX,
    decreases s.len() - i,
{
    if i + 1 == s.len() {
        assert(s.take(i + 1) =~= s);
    } else {
        assert(s.take(i + 2).drop_last() =~= s.take(i + 1));
        let p = dec_val(s.take(i + 1));
        assert(dec_val(s.take(i + 2)) == p * 10 + digit_val(s.take(i + 2).last()));
        assert(p * 10 >= p) by (nonlinear_arith);
        lemma_dec_val_overflow(s, i + 1);
    }
}

/// Lexicographic order on character sequences, by code point.
pub open spec fn lex_le(a: Seq<char>, b: Seq<char>) -> bool
    decreases a.len(),
{
    if a.len() == 0 {
        true
    } else if b.len() == 0 {
        false
    } else if a[0] != b[0] {
        a[0] < b[0]
    } else {
        lex_le(a.drop_first(), b.drop_first())
    }
}

/// Lexicographic comparison of two strings.
pub fn str_le(a: &str, b: &str) -> (r: bool)
    ensures
        r == lex_le(a@, b@),
    decreases a@.len(),
{
    let an: usize = a.unicode_len();
    let bn: usize = b.unicode_len();
    if an == 0 {
        return true;
    }
    if bn == 0 {
        return false;
    }
    let ca = a.get_char(0);
    let cb = b.get_char(0);
    if ca != cb {
        ca < cb
    } else {
        let r = str_le(a.substring_char(1, an), b.substring_char(1, bn));
        proof {
            assert(a@.subrange(1, an as int) =~= a@.drop_first());
            assert(b@.subrange(1, bn as int) =~= b@.drop_first());
        }
        r
    }
}

/// The lexicographic order is total, and antisymmetric up to equality.
pub proof fn lemma_lex_total(a: Seq<char>, b: Seq<char>)
    ensures
        lex_le(a, b) || lex_le(b, a),
        lex_le(a, b) && lex_le(b, a) ==> a == b,
    decreases a.len(),
{
    if a.len() > 0 && b.len() > 0 && a[0] == b[0] {
        lemma_lex_total(a.drop_first(), b.drop_first());
        if lex_le(a, b) && lex_le(b, a) {
            assert(a =~= seq![a[0]] + a.drop_first());
            assert(b =~= seq![b[0]] + b.drop_first());
        }
    } else if a.len() == 0 && b.len() == 0 {
        assert(a =~= b);
    }
}

/// The lexicographic order is transitive.
pub proof fn lemma_lex_trans(a: Seq<char>, b: Seq<char>, c: Seq<char>)
    requires
        lex_le(a, b),
        lex_le(b, c),
    ensures
        lex_le(a, c),
    decreases a.len(),
{
    if a.len() > 0 && b.len() > 0 && c.len() > 0 {
        if a[0] == b[0] && b[0] == c[0] {
            lemma_lex_trans(a.drop_first(), b.drop_first(), c.drop_first());
        }
    }
}

/// The camelCase rendering of a snake_case name: underscores are dropped and
/// the character after each underscore is ASCII-upper-cased.
pub open spec fn camel_of(s: Seq<char>, cap: bool) -> Seq<char>
    decreases s.len(),
{
    if s.len() == 0 {
        Seq::empty()
    } else if s[0] == '_' {
        camel_of(s.drop_first(), true)
    } else if cap {
        seq![upper_char(s[0])] + camel_of(s.drop_first(), false)
    } else {
        seq![s[0]] + camel_of(s.drop_first(), false)
    }
}

/// ASCII upper-casing of one character; other characters are unchanged.
pub open spec fn upper_char(c: char) -> char {
    if 'a' <= c && c <= 'z' {
        (((c as u8) - 32) as char)
    } else {
        c
    }
}

/// Convert a snake_case name to camelCase.
pub fn to_camel_case(s: &str) -> (r: String)
    ensures
        r@ == camel_of(s@, false),
{
    let n: usize = s.unicode_len();
    let mut out = String::new();
    let mut cap: bool = false;
    let mut i: usize = 0;
    proof {
        assert(s@.skip(0) =~= s@);
        assert(out@ + camel_of(s@, false) =~= camel_of(s@, false));
    }
    while i < n
        invariant
            n == s@.len(),
            i <= n,
            camel_of(s@, false) == out@ + camel_of(s@.skip(i as int), cap),
        decreases n - i,
    {
        let c = s.get_char(i);
        proof {
            assert(s@.skip(i as int).drop_first() =~= s@.skip(i as int + 1));
            assert(s@.skip(i as int)[0] == s@[i as int]);
        }
        let ghost pre = out@;
        let ghost rest = camel_of(s@.skip(i as int + 1), false);
        if c == '_' {
            cap = true;
        } else if cap {
            let u = if 'a' <= c && c <= 'z' {
                ((c as u8) - 32) as char
            } else {
                c
            };
            proof {
                assert(u == upper_char(c));
            }
            out.push(u);
            cap = false;
            proof {
                assert(pre.push(u) + rest =~= pre + (seq![u] + rest));
            }
        } else {
            out.push(c);
            proof {
                assert(pre.push(c) + rest =~= pre + (seq![c] + rest));
            }
        }
        i = i + 1;
    }
    proof {
        assert(s@.skip(n as int) =~= Seq::<char>::empty());
        assert(out@ + Seq::<char>::empty() =~= out@);
    }
    out
}

/// Every `-` replaced by `_`.
pub open spec fn dashes_to_underscores(s: Seq<char>) -> Seq<char> {
    s.map_values(|c: char| if c == '-' { '_' } else { c })
}

/// Replace every `-` with `_`.
pub fn dash_to_underscore(s: &str) -> (r: String)
    ensures
        r@ == dashes_to_underscores(s@),
{
    let n: usize = s.unicode_len();
    let mut out = String::new();
    let mut i: usize = 0;
    while i < n
        invariant
            n == s@.len(),
            i <= n,
            out@ == s@.take(i as int).map_values(|c: char| if c == '-' { '_' } else { c }),
        decreases n - i,
    {
        let c = s.get_char(i);
        out.push(if c == '-' {
            '_'
        } else {
            c
        });
        i = i + 1;
        proof {
            assert(out@ =~= s@.take(i as int).map_values(
                |c: char| if c == '-' { '_' } else { c },
            ));
        }
    }
    proof {
        assert(s@.take(n as int) =~= s@);
    }
    out
}


/// The string with every trailing `c` removed.
pub open spec fn trim_trailing(s: Seq<char>, c: char) -> Seq<char>
    decreases s.len(),
{
    if s.len() > 0 && s.last() == c {
        trim_trailing(s.drop_last(), c)
    } else {
        s
    }
}

/// Remove every trailing occurrence of `c`.
pub fn trim_trailing_exec(s: &str, c: char) -> (r: String)
    ensures
        r@ == trim_trailing(s@, c),
{
    let n: usize = s.unicode_len();
    let mut e: usize = n;
    proof {
        assert(s@.take(n as int) =~= s@);
    }
    while e > 0 && s.get_char(e - 1) == c
        invariant
            n == s@.len(),
            e <= n,
            trim_trailing(s@, c) == trim_trailing(s@.take(e as int), c),
        decreases e,
    {
        proof {
            assert(s@.take(e as int).drop_last() =~= s@.take(e as int - 1));
            assert(s@.take(e as int).last() == s@[e as int - 1]);
        }
        e = e - 1;
    }
    proof {
        if e > 0 {
            assert(s@.take(e as int).last() == s@[e as int - 1]);
        }
        assert(trim_trailing(s@.take(e as int), c) == s@.take(e as int));
    }
    let r = s.substring_char(0, e);
    proof {
        assert(s@.subrange(0, e as int) =~= s@.take(e as int));
    }
    r.to_owned()
}

/// The fragments joined with one `c` between neighbours.
pub open spec fn join_with(l: Seq<Seq<char>>, c: char) -> Seq<char>
    decreases l.len(),
{
    if l.len() == 0 {
        Seq::empty()
    } else if l.len() == 1 {
        l[0]
    } else {
        l[0] + seq![c] + join_with(l.drop_first(), c)
    }
}

pub proof fn lemma_join_with_snoc(l: Seq<Seq<char>>, c: char)
    requires
        l.len() > 0,
    ensures
        l.len() == 1 ==> join_with(l, c) == l[0],
        l.len() > 1 ==> join_with(l, c) == join_with(l.drop_last(), c) + seq![c] + l.last(),
    decreases l.len(),
{
    if l.len() > 1 {
        lemma_join_with_snoc(l.drop_first(), c);
        assert(l.drop_first().drop_last() =~= l.drop_last().drop_first());
        assert(l.drop_last()[0] == l[0]);
        assert(join_with(l, c) =~= join_with(l.drop_last(), c) + seq![c] + l.last());
    }
}

/// Join fragments with one `c` between neighbours.
pub fn join_strings(l: &Vec<String>, c: char) -> (r: String)
    ensures
        r@ == join_with(l@.map_values(|s: String| s@), c),
{
    let ghost gl = l@.map_values(|s: String| s@);
    let mut out = String::new();
    let mut i: usize = 0;
    while i < l.len()
        invariant
            gl == l@.map_values(|s: String| s@),
            gl.len() == l@.len(),
            i <= l@.len(),
            i == 0 ==> out@ == Seq::<char>::empty(),
            i > 0 ==> out@ == join_with(gl.take(i as int), c),
        decreases l@.len() - i,
    {
        if i > 0 {
            out.push(c);
        }
        out.append(l[i].as_str());
        i = i + 1;
        proof {
            lemma_join_with_snoc(gl.take(i as int), c);
            assert(gl.take(i as int).drop_last() =~= gl.take(i as int - 1));
            assert(gl.take(i as int).last() == gl[i as int - 1]);
            if i == 1 {
                assert(out@ =~= join_with(gl.take(1), c));
            } else {
                assert(out@ =~= join_with(gl.take(i as int), c));
            }
        }
    }
    proof {
        assert(gl.take(gl.len() as int) =~= gl);
    }
    out
}

} // verus!
