//! Shared verified text utilities: substring search, string equality,
//! case folding (trusted), and decimal digit handling.

use vstd::prelude::*;

verus! {

/// `p` occurs in `s` starting at index `i`.
pub open spec fn matches_at(s: Seq<char>, p: Seq<char>, i: int) -> bool {
    0 <= i && i + p.len() <= s.len() && s.subrange(i, i + p.len() as int) == p
}

/// `p` occurs somewhere in `s`.
pub open spec fn has_substring(s: Seq<char>, p: Seq<char>) -> bool {
    exists|i: int| matches_at(s, p, i)
}

/// Substring containment test.
pub fn str_contains(s: &str, p: &str) -> (b: bool)
    ensures
        b == has_substring(s@, p@),
{
    let n = s.unicode_len();
    let m = p.unicode_len();
    if m == 0 {
        proof {
            assert(s@.subrange(0, 0) =~= p@);
            assert(matches_at(s@, p@, 0));
        }
        return true;
    }
    if m > n {
        assert(forall|i: int| !matches_at(s@, p@, i));
        return false;
    }
    let mut i: usize = 0;
    while i <= n - m
        invariant
            1 <= m <= n,
            n == s@.len(),
            m == p@.len(),
            i <= n - m + 1,
            forall|k: int| 0 <= k < i ==> !matches_at(s@, p@, k),
        decreases n - m + 1 - i,
    {
        let mut j: usize = 0;
        let mut mismatch = false;
        while j < m && !mismatch
            invariant
                m <= n,
                n == s@.len(),
                m == p@.len(),
                i <= n - m,
                j <= m,
                !mismatch ==> forall|t: int| 0 <= t < j ==> s@[i + t] == p@[t],
                mismatch ==> !matches_at(s@, p@, i as int),
            decreases m - j,
        {
            if s.get_char(i + j) != p.get_char(j) {
                proof {
                    if matches_at(s@, p@, i as int) {
                        assert(s@.subrange(i as int, i + m)[j as int] == s@[i + j]);
                    }
                }
                mismatch = true;
            }
            j = j + 1;
        }
        if !mismatch {
            proof {
                assert(s@.subrange(i as int, i + m) =~= p@);
                assert(matches_at(s@, p@, i as int));
            }
            return true;
        }
        i = i + 1;
    }
    assert(forall|k: int| !matches_at(s@, p@, k));
    false
}

/// Character-wise string equality (view equality).
pub fn str_eq(a: &str, b: &str) -> (r: bool)
    ensures
        r == (a@ == b@),
{
    let n = a.unicode_len();
    if n != b.unicode_len() {
        return false;
    }
    let mut i: usize = 0;
    while i < n
        invariant
            n == a@.len(),
            n == b@.len(),
            i <= n,
            forall|t: int| 0 <= t < i ==> a@[t] == b@[t],
        decreases n - i,
    {
        if a.get_char(i) != b.get_char(i) {
            return false;
        }
        i = i + 1;
    }
    proof {
        assert(a@ =~= b@);
    }
    true
}

/// The digit character for a value in 0..10.
pub open spec fn digit_char(d: int) -> char {
    ((48 + d) as u8) as char
}

/// Decimal representation of a natural number, most significant digit first.
pub open spec fn dec_rep(n: nat) -> Seq<char>
    decreases n,
{
    if n < 10 {
        seq![digit_char(n as int)]
    } else {
        dec_rep(n / 10).push(digit_char((n % 10) as int))
    }
}

fn digit_str(d: u8) -> (r: &'static str)
    requires
        d < 10,
    ensures
        r@ == seq![digit_char(d as int)],
{
    let r: &'static str = match d {
        0 => "0",
        1 => "1",
        2 => "2",
        3 => "3",
        4 => "4",
        5 => "5",
        6 => "6",
        7 => "7",
        8 => "8",
        _ => "9",
    };
    proof {
        reveal_strlit("0");
        reveal_strlit("1");
        reveal_strlit("2");
        reveal_strlit("3");
        reveal_strlit("4");
        reveal_strlit("5");
        reveal_strlit("6");
        reveal_strlit("7");
        reveal_strlit("8");
        reveal_strlit("9");
        assert(r@ =~= seq![digit_char(d as int)]);
    }
    r
}

/// Formats a number in decimal.
pub fn u64_to_dec(n: u64) -> (r: String)
    ensures
        r@ == dec_rep(n as nat),
    decreases n,
{
    if n < 10 {
        let mut s = String::new();
        s.append(digit_str(n as u8));
        proof {
            assert(s@ =~= dec_rep(n as nat));
        }
        s
    } else {
        let mut s = u64_to_dec(n / 10);
        s.append(digit_str((n % 10) as u8));
        proof {
            assert(s@ =~= dec_rep(n as nat));
        }
        s
    }
}

/// `c` is a decimal digit.
pub open spec fn is_digit(c: char) -> bool {
    48 <= c as int <= 57
}

/// Every character of `s` is a decimal digit.
pub open spec fn all_digits(s: Seq<char>) -> bool {
    forall|i: int| 0 <= i < s.len() ==> is_digit(#[trigger] s[i])
}

/// The value of a digit sequence read in decimal.
pub open spec fn dec_val(s: Seq<char>) -> int
    decreases s.len(),
{
    if s.len() == 0 {
        0
    } else {
        dec_val(s.drop_last()) * 10 + (s.last() as int - 48)
    }
}

pub proof fn lemma_dec_val_nonneg(s: Seq<char>)
    requires
        all_digits(s),
    ensures
        dec_val(s) >= 0,
    decreases s.len(),
{
    if s.len() > 0 {
        assert(forall|i: int| 0 <= i < s.drop_last().len() ==> s.drop_last()[i] == s[i]);
        lemma_dec_val_nonneg(s.drop_last());
    }
}

proof fn lemma_dec_val_prefix_le(s: Seq<char>, i: int)
    requires
        all_digits(s),
        0 <= i <= s.len(),
    ensures
        dec_val(s.take(i)) <= dec_val(s),
    decreases s.len() - i,
{
    assert(forall|k: int, j: int|
        0 <= j <= s.len() && 0 <= k < j ==> #[trigger] s.take(j)[k] == s[k]);
    if i == s.len() {
        assert(s.take(i) =~= s);
    } else {
        lemma_dec_val_prefix_le(s, i + 1);
        assert(s.take(i + 1).drop_last() =~= s.take(i));
        assert(s.take(i + 1).last() == s[i]);
        assert(all_digits(s.take(i)));
        lemma_dec_val_nonneg(s.take(i));
    }
}

/// Parses a nonempty all-digit string as a `u64`; `None` exactly when the
/// string is empty, holds a non-digit, or the value exceeds `u64::MAX`.
pub fn parse_u64_digits(s: &str) -> (r: Option<u64>)
    ensures
        r is Some <==> (s@.len() > 0 && all_digits(s@) && dec_val(s@) <= u64::MAX),
        r is Some ==> r->0 as int == dec_val(s@),
{
    let n = s.unicode_len();
    if n == 0 {
        return None;
    }
    let mut val: u64 = 0;
    let mut i: usize = 0;
    while i < n
        invariant
            n == s@.len(),
            0 < n,
            i <= n,
            all_digits(s@.take(i as int)),
            val as int == dec_val(s@.take(i as int)),
        decreases n - i,
    {
        let c = s.get_char(i);
        let cv = c as u32;
        if cv < 48 || cv > 57 {
            return None;
        }
        let d: u64 = (cv - 48) as u64;
        if val > (u64::MAX - d) / 10 {
            proof {
                assert(s@.take(i + 1).drop_last() =~= s@.take(i as int));
                assert(dec_val(s@.take(i + 1)) == val * 10 + d);
                assert(val * 10 + d > u64::MAX) by (nonlinear_arith)
                    requires
                        val > (u64::MAX - d) / 10,
                        d <= 9,
                ;
                if all_digits(s@) {
                    lemma_dec_val_prefix_le(s@, i + 1);
                }
            }
            return None;
        }
        proof {
            assert(s@.take(i + 1).drop_last() =~= s@.take(i as int));
        }
        val = val * 10 + d;
        i = i + 1;
    }
    proof {
        assert(s@.take(n as int) =~= s@);
    }
    Some(val)
}

/// `s` is a nonempty digit string whose value fits an `i64`.
pub open spec fn is_i64_digits(s: Seq<char>) -> bool {
    s.len() > 0 && all_digits(s) && dec_val(s) <= i64::MAX
}

/// Parses a nonempty all-digit string as an `i64`; `None` exactly when the
/// string is empty, holds a non-digit, or the value exceeds `i64::MAX`.
pub fn parse_i64_digits(s: &str) -> (r: Option<i64>)
    ensures
        r is Some <==> is_i64_digits(s@),
        r is Some ==> r->0 as int == dec_val(s@) && r->0 >= 0,
{
    match parse_u64_digits(s) {
        Some(v) => {
            if v <= 0x7fff_ffff_ffff_ffffu64 {
                proof {
                    lemma_dec_val_nonneg(s@);
                }
                Some(v as i64)
            } else {
                None
            }
        },
        None => None,
    }
}

/// The views of a sequence of strings.
pub open spec fn views(v: Seq<String>) -> Seq<Seq<char>> {
    v.map_values(|x: String| x@)
}

/// Splitting on a separator character, by recursion on the first character:
/// the result always has at least one part, the parts joined by the
/// separator give back the input, and no part contains the separator.
pub open spec fn spec_split(s: Seq<char>, sep: char) -> Seq<Seq<char>>
    decreases s.len(),
{
    if s.len() == 0 {
        seq![Seq::<char>::empty()]
    } else if s[0] == sep {
        seq![Seq::<char>::empty()] + spec_split(s.drop_first(), sep)
    } else {
        let rest = spec_split(s.drop_first(), sep);
        seq![seq![s[0]] + rest[0]] + rest.drop_first()
    }
}

pub proof fn lemma_split_nonempty(s: Seq<char>, sep: char)
    ensures
        spec_split(s, sep).len() >= 1,
    decreases s.len(),
{
    if s.len() > 0 {
        lemma_split_nonempty(s.drop_first(), sep);
    }
}

pub proof fn lemma_split_first(s: Seq<char>, sep: char)
    requires
        s.len() > 0,
        s[0] != sep,
    ensures
        spec_split(s, sep)[0].len() >= 1,
        spec_split(s, sep)[0][0] == s[0],
{
    lemma_split_nonempty(s.drop_first(), sep);
}

proof fn lemma_split_push(s: Seq<char>, sep: char, c: char)
    ensures
        c == sep ==> spec_split(s.push(c), sep) == spec_split(s, sep).push(
            Seq::<char>::empty(),
        ),
        c != sep ==> spec_split(s.push(c), sep) == spec_split(s, sep).drop_last().push(
            spec_split(s, sep).last().push(c),
        ),
    decreases s.len(),
{
    lemma_split_nonempty(s, sep);
    if s.len() == 0 {
        assert(s.push(c).drop_first() =~= s);
        if c == sep {
            assert(spec_split(s.push(c), sep) =~~= spec_split(s, sep).push(
                Seq::<char>::empty(),
            ));
        } else {
            assert(seq![s.push(c)[0]] + spec_split(s, sep)[0] =~= seq![c]);
            assert(spec_split(s.push(c), sep) =~~= spec_split(s, sep).drop_last().push(
                spec_split(s, sep).last().push(c),
            ));
        }
    } else {
        let t = s.drop_first();
        assert(s.push(c).drop_first() =~= t.push(c));
        lemma_split_push(t, sep, c);
        lemma_split_nonempty(t, sep);
        let rt = spec_split(t, sep);
        let r = spec_split(s, sep);
        if s[0] == sep {
            assert(r == seq![Seq::<char>::empty()] + rt);
            assert(r.last() == rt.last());
            if c == sep {
                assert(spec_split(s.push(c), sep) =~~= r.push(Seq::<char>::empty()));
            } else {
                assert(r.drop_last() =~= seq![Seq::<char>::empty()] + rt.drop_last());
                assert(spec_split(s.push(c), sep) =~~= r.drop_last().push(r.last().push(c)));
            }
        } else {
            assert(r == seq![seq![s[0]] + rt[0]] + rt.drop_first());
            if c == sep {
                if rt.len() == 1 {
                    assert(spec_split(s.push(c), sep) =~~= r.push(Seq::<char>::empty()));
                } else {
                    assert(rt.push(Seq::<char>::empty()).drop_first() =~= rt.drop_first().push(
                        Seq::<char>::empty(),
                    ));
                    assert(rt.push(Seq::<char>::empty())[0] == rt[0]);
                    assert(spec_split(s.push(c), sep) =~~= r.push(Seq::<char>::empty()));
                }
            } else {
                let rt2 = rt.drop_last().push(rt.last().push(c));
                if rt.len() == 1 {
                    assert(rt2[0] == rt[0].push(c));
                    assert(seq![s[0]] + rt2[0] =~= (seq![s[0]] + rt[0]).push(c));
                    assert(r.drop_last() =~= Seq::<Seq<char>>::empty());
                    assert(spec_split(s.push(c), sep) =~~= r.drop_last().push(r.last().push(c)));
                } else {
                    assert(rt2[0] == rt[0]);
                    assert(rt2.drop_first() =~= rt.drop_first().drop_last().push(
                        rt.last().push(c),
                    ));
                    assert(r.last() == rt.last());
                    assert(r.drop_last() =~= seq![seq![s[0]] + rt[0]] + rt.drop_first().drop_last());
                    assert(spec_split(s.push(c), sep) =~~= r.drop_last().push(r.last().push(c)));
                }
            }
        }
    }
}

/// Splits a string on a separator character.
pub fn split_char(s: &str, sep: char) -> (r: Vec<String>)
    ensures
        views(r@) == spec_split(s@, sep),
        r@.len() >= 1,
{
    let n = s.unicode_len();
    let mut parts: Vec<String> = Vec::new();
    let mut start: usize = 0;
    let mut i: usize = 0;
    proof {
        assert(views(parts@).push(s@.subrange(0, 0)) =~~= spec_split(s@.take(0), sep));
    }
    while i < n
        invariant
            n == s@.len(),
            start <= i <= n,
            views(parts@).push(s@.subrange(start as int, i as int)) == spec_split(
                s@.take(i as int),
                sep,
            ),
        decreases n - i,
    {
        let c = s.get_char(i);
        proof {
            assert(s@.take(i as int).push(c) =~= s@.take(i + 1));
            lemma_split_push(s@.take(i as int), sep, c);
            lemma_split_nonempty(s@.take(i as int), sep);
        }
        if c == sep {
            let piece = String::from_str(s.substring_char(start, i));
            parts.push(piece);
            proof {
                assert(views(parts@).push(s@.subrange(i + 1, i + 1)) =~~= spec_split(
                    s@.take(i + 1),
                    sep,
                ));
            }
            start = i + 1;
        } else {
            proof {
                let old_split = spec_split(s@.take(i as int), sep);
                assert(old_split.drop_last() == views(parts@));
                assert(old_split.last() == s@.subrange(start as int, i as int));
                assert(s@.subrange(start as int, i as int).push(c) =~= s@.subrange(
                    start as int,
                    i + 1,
                ));
                assert(views(parts@).push(s@.subrange(start as int, i + 1)) =~~= spec_split(
                    s@.take(i + 1),
                    sep,
                ));
            }
        }
        i = i + 1;
    }
    let piece = String::from_str(s.substring_char(start, n));
    parts.push(piece);
    proof {
        assert(s@.take(n as int) =~= s@);
        assert(views(parts@) =~~= spec_split(s@, sep));
    }
    parts
}

/// Joining a sequence of parts with a separator.
pub open spec fn spec_join(parts: Seq<Seq<char>>, sep: char) -> Seq<char>
    decreases parts.len(),
{
    if parts.len() == 0 {
        Seq::<char>::empty()
    } else if parts.len() == 1 {
        parts[0]
    } else {
        parts[0] + seq![sep] + spec_join(parts.drop_first(), sep)
    }
}

proof fn lemma_join_push(parts: Seq<Seq<char>>, sep: char, p: Seq<char>)
    ensures
        parts.len() == 0 ==> spec_join(parts.push(p), sep) == p,
        parts.len() > 0 ==> spec_join(parts.push(p), sep) == spec_join(parts, sep) + seq![sep] + p,
    decreases parts.len(),
{
    if parts.len() == 0 {
        assert(spec_join(parts.push(p), sep) == parts.push(p)[0]);
    } else {
        assert(parts.push(p).drop_first() =~~= parts.drop_first().push(p));
        lemma_join_push(parts.drop_first(), sep, p);
        if parts.len() == 1 {
            assert(spec_join(parts.push(p), sep) =~= spec_join(parts, sep) + seq![sep] + p);
        } else {
            assert(spec_join(parts.push(p), sep) =~= spec_join(parts, sep) + seq![sep] + p);
        }
    }
}

/// Joins `parts[from..]` with the separator `'_'`.
pub fn join_underscore(parts: &Vec<String>, from: usize) -> (r: String)
    requires
        from <= parts@.len(),
    ensures
        r@ == spec_join(views(parts@).skip(from as int), '_'),
{
    let n = parts.len();
    let mut out = String::new();
    let mut i: usize = from;
    while i < n
        invariant
            from <= i <= n,
            n == parts@.len(),
            out@ == spec_join(views(parts@).subrange(from as int, i as int), '_'),
        decreases n - i,
    {
        proof {
            reveal_strlit("_");
            assert(views(parts@).subrange(from as int, i as int).push(parts@[i as int]@) =~~=
                views(parts@).subrange(from as int, i + 1));
            lemma_join_push(
                views(parts@).subrange(from as int, i as int),
                '_',
                parts@[i as int]@,
            );
        }
        if i > from {
            out.append("_");
        }
        out.append(parts[i].as_str());
        i = i + 1;
    }
    proof {
        assert(views(parts@).subrange(from as int, n as int) =~~= views(parts@).skip(from as int));
    }
    out
}

/// `s` ends with `suffix`.
pub open spec fn spec_ends_with(s: Seq<char>, suffix: Seq<char>) -> bool {
    s.len() >= suffix.len() && s.subrange(s.len() - suffix.len(), s.len() as int) == suffix
}

/// Suffix test.
pub fn ends_with(s: &str, suffix: &str) -> (b: bool)
    ensures
        b == spec_ends_with(s@, suffix@),
{
    let n = s.unicode_len();
    let m = suffix.unicode_len();
    if m > n {
        return false;
    }
    let tail = s.substring_char(n - m, n);
    str_eq(tail, suffix)
}

/// Whether a character is Unicode-alphanumeric, as `char::is_alphanumeric`
/// decides it. The result depends on the character alone.
pub uninterp spec fn is_unicode_alnum(c: char) -> bool;

/// Relies on `char::is_alphanumeric`: a pure predicate on the character.
pub assume_specification[ char::is_alphanumeric ](c: char) -> (r: bool)
    ensures
        r == is_unicode_alnum(c),
;

/// Characters kept by description sanitization: alphanumeric, `_` and `-`.
pub open spec fn keep_desc_char(c: char) -> bool {
    is_unicode_alnum(c) || c == '_' || c == '-'
}

/// A description reduced to alphanumeric / `_` / `-` characters and
/// truncated to 30 of them.
pub open spec fn spec_sanitize_cap(s: Seq<char>) -> Seq<char> {
    let f = s.filter(|c: char| keep_desc_char(c));
    if f.len() <= 30 {
        f
    } else {
        f.take(30)
    }
}

/// Sanitizes a snapshot description so it can stand inside an identifier.
pub fn sanitize_description(s: &str) -> (r: String)
    ensures
        r@ == spec_sanitize_cap(s@),
{
    let ghost pred = |c: char| keep_desc_char(c);
    let n = s.unicode_len();
    let mut out = String::new();
    let mut count: usize = 0;
    let mut i: usize = 0;
    proof {
        reveal(Seq::filter);
        assert(s@.take(0).filter(pred) =~= Seq::<char>::empty());
    }
    while i < n && count < 30
        invariant
            n == s@.len(),
            i <= n,
            count == out@.len(),
            count <= 30,
            pred == (|c: char| keep_desc_char(c)),
            out@ == s@.take(i as int).filter(pred),
        decreases n - i,
    {
        let c = s.get_char(i);
        proof {
            reveal(Seq::filter);
            assert(s@.take(i + 1).drop_last() =~= s@.take(i as int));
            assert(s@.take(i + 1).last() == s@[i as int]);
        }
        if c.is_alphanumeric() || c == '_' || c == '-' {
            out.append(s.substring_char(i, i + 1));
            proof {
                assert(s@.subrange(i as int, i + 1) =~= seq![s@[i as int]]);
                assert(out@ =~= s@.take(i + 1).filter(pred));
            }
            count = count + 1;
        } else {
            proof {
                assert(out@ =~= s@.take(i + 1).filter(pred));
            }
        }
        i = i + 1;
    }
    proof {
        if i == n {
            assert(s@.take(n as int) =~= s@);
        } else {
            assert(s@ =~= s@.take(i as int) + s@.skip(i as int));
            Seq::filter_distributes_over_add(s@.take(i as int), s@.skip(i as int), pred);
            assert(s@.filter(pred) == s@.take(i as int).filter(pred) + s@.skip(i as int).filter(
                pred,
            ));
            assert(spec_sanitize_cap(s@) =~= out@);
        }
    }
    out
}

/// The uppercase folding of a character sequence, as `str::to_uppercase`
/// computes it. The result depends on the characters alone.
pub uninterp spec fn upper_of(s: Seq<char>) -> Seq<char>;

/// Relies on `str::to_uppercase`: the uppercase folding of the input,
/// a function of the characters alone.
#[verifier::external_body]
pub fn to_upper(s: &str) -> (r: String)
    ensures
        r@ == upper_of(s@),
{
    s.to_uppercase()
}

/// The lowercase folding of a character sequence, as `str::to_lowercase`
/// computes it. The result depends on the characters alone.
pub uninterp spec fn lower_of(s: Seq<char>) -> Seq<char>;

/// Relies on `str::to_lowercase`: the lowercase folding of the input,
/// a function of the characters alone.
#[verifier::external_body]
pub fn to_lower(s: &str) -> (r: String)
    ensures
        r@ == lower_of(s@),
{
    s.to_lowercase()
}

/// `s` with every space replaced by an underscore.
pub open spec fn underscore_spaces(s: Seq<char>) -> Seq<char> {
    s.map_values(|c: char| if c == ' ' { '_' } else { c })
}

/// Replaces spaces with underscores.
pub fn replace_spaces(s: &str) -> (r: String)
    ensures
        r@ == underscore_spaces(s@),
{
    let n = s.unicode_len();
    let mut out = String::new();
    let mut i: usize = 0;
    proof {
        assert(out@ =~= underscore_spaces(s@.take(0)));
    }
    while i < n
        invariant
            n == s@.len(),
            i <= n,
            out@ == underscore_spaces(s@.take(i as int)),
        decreases n - i,
    {
        let c = s.get_char(i);
        if c == ' ' {
            out.append("_");
            proof {
                reveal_strlit("_");
                assert(out@ =~= underscore_spaces(s@.take(i + 1)));
            }
        } else {
            out.append(s.substring_char(i, i + 1));
            proof {
                assert(s@.subrange(i as int, i + 1) =~= seq![s@[i as int]]);
                assert(out@ =~= underscore_spaces(s@.take(i + 1)));
            }
        }
        i = i + 1;
    }
    proof {
        assert(s@.take(n as int) =~= s@);
    }
    out
}

} // verus!
