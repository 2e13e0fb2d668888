use vstd::prelude::*;

use crate::decimal::{digits_val, is_digit, parse_digits};

verus! {

// A small scanner for the subset of JSON the exchange's feed messages use:
// objects with string keys, unsigned integers, strings without escapes, and
// arrays. Each token has a spec-level parser (the grammar) and an exec
// twin proved to agree with it. Positions are byte indices.

pub open spec fn is_ws(b: u8) -> bool {
    b == 32 || b == 9 || b == 10 || b == 13
}

/// First index at or after `i` that holds no whitespace.
pub open spec fn ws_end(s: Seq<u8>, i: int) -> int
    decreases s.len() - i when 0 <= i <= s.len()
{
    if i >= s.len() {
        i
    } else if is_ws(s[i]) {
        ws_end(s, i + 1)
    } else {
        i
    }
}

pub proof fn lemma_ws_end(s: Seq<u8>, i: int)
    requires
        0 <= i <= s.len(),
    ensures
        i <= ws_end(s, i) <= s.len(),
        ws_end(s, i) < s.len() ==> !is_ws(s[ws_end(s, i)]),
    decreases s.len() - i,
{
    if i < s.len() && is_ws(s[i]) {
        lemma_ws_end(s, i + 1);
    }
}

/// First `"` at or after `i`, if any.
pub open spec fn quote_end(s: Seq<u8>, i: int) -> Option<int>
    decreases s.len() - i when 0 <= i <= s.len()
{
    if i >= s.len() {
        None
    } else if s[i] == 34 {
        Some(i)
    } else {
        quote_end(s, i + 1)
    }
}

pub proof fn lemma_quote_end(s: Seq<u8>, i: int)
    requires
        0 <= i <= s.len(),
    ensures
        match quote_end(s, i) {
            Some(j) => i <= j < s.len() && s[j] == 34 && (forall|k: int|
                i <= k < j ==> s[k] != 34),
            None => forall|k: int| i <= k < s.len() ==> s[k] != 34,
        },
    decreases s.len() - i,
{
    if i < s.len() && s[i] != 34 {
        lemma_quote_end(s, i + 1);
    }
}

/// A string token may not carry escapes or control bytes.
pub open spec fn content_ok(c: Seq<u8>) -> bool {
    forall|k: int| 0 <= k < c.len() ==> c[k] != 92 && c[k] >= 32
}

/// A string token at `i`: leading quote, plain content, closing quote.
/// Yields the content and the position after the closing quote.
pub open spec fn spec_parse_string(s: Seq<u8>, i: int) -> Option<(Seq<u8>, int)> {
    if 0 <= i < s.len() && s[i] == 34 {
        match quote_end(s, i + 1) {
            Some(j) => {
                let c = s.subrange(i + 1, j);
                if content_ok(c) {
                    Some((c, j + 1))
                } else {
                    None
                }
            },
            None => None,
        }
    } else {
        None
    }
}

pub proof fn lemma_parse_string_advances(s: Seq<u8>, i: int)
    ensures
        match spec_parse_string(s, i) {
            Some((c, p)) => i < p <= s.len(),
            None => true,
        },
{
    if 0 <= i < s.len() && s[i] == 34 {
        lemma_quote_end(s, i + 1);
    }
}

/// First index at or after `i` that holds no digit.
pub open spec fn digits_end(s: Seq<u8>, i: int) -> int
    decreases s.len() - i when 0 <= i <= s.len()
{
    if i >= s.len() {
        i
    } else if is_digit(s[i]) {
        digits_end(s, i + 1)
    } else {
        i
    }
}

pub proof fn lemma_digits_end(s: Seq<u8>, i: int)
    requires
        0 <= i <= s.len(),
    ensures
        i <= digits_end(s, i) <= s.len(),
        digits_end(s, i) < s.len() ==> !is_digit(s[digits_end(s, i)]),
        forall|k: int| i <= k < digits_end(s, i) ==> is_digit(s[k]),
    decreases s.len() - i,
{
    if i < s.len() && is_digit(s[i]) {
        lemma_digits_end(s, i + 1);
    }
}

/// An unsigned integer token at `i`: a non-empty digit run, value unbounded.
pub open spec fn spec_parse_uint(s: Seq<u8>, i: int) -> Option<(nat, int)> {
    if 0 <= i <= s.len() {
        let e = digits_end(s, i);
        if e > i {
            Some((digits_val(s.subrange(i, e)), e))
        } else {
            None
        }
    } else {
        None
    }
}

/// Skips whitespace from `i`.
pub fn skip_ws(s: &[u8], i: usize) -> (r: usize)
    requires
        i <= s@.len(),
    ensures
        r == ws_end(s@, i as int),
        i <= r <= s@.len(),
{
    let n = s.len();
    let mut j = i;
    while j < n && (s[j] == 32 || s[j] == 9 || s[j] == 10 || s[j] == 13)
        invariant
            i <= j <= n == s@.len(),
            ws_end(s@, i as int) == ws_end(s@, j as int),
        decreases n - j,
    {
        proof {
            assert(ws_end(s@, j as int) == ws_end(s@, j + 1));
        }
        j += 1;
    }
    j
}

/// Reads a string token; agrees with `spec_parse_string`.
pub fn parse_string_tok(s: &[u8], i: usize) -> (r: Option<(Vec<u8>, usize)>)
    requires
        i <= s@.len(),
    ensures
        match r {
            Some((c, p)) => spec_parse_string(s@, i as int) == Some((c@, p as int)) && i < p
                <= s@.len(),
            None => spec_parse_string(s@, i as int) is None,
        },
{
    let n = s.len();
    if i >= n || s[i] != 34 {
        return None;
    }
    let mut content: Vec<u8> = Vec::new();
    let mut j = i + 1;
    while j < n && s[j] != 34 && s[j] != 92 && s[j] >= 32
        invariant
            i + 1 <= j <= n == s@.len(),
            i < s@.len() && s@[i as int] == 34,
            quote_end(s@, i + 1) == quote_end(s@, j as int),
            content@ =~= s@.subrange(i + 1, j as int),
            content_ok(s@.subrange(i + 1, j as int)),
        decreases n - j,
    {
        proof {
            assert(quote_end(s@, j as int) == quote_end(s@, j + 1));
        }
        content.push(s[j]);
        j += 1;
        proof {
            assert(content@ =~= s@.subrange(i + 1, j as int));
        }
    }
    if j < n && s[j] == 34 {
        proof {
            assert(quote_end(s@, j as int) == Some(j as int));
        }
        Some((content, j + 1))
    } else {
        proof {
            lemma_quote_end(s@, j as int);
            if quote_end(s@, j as int) is Some {
                let q = quote_end(s@, j as int)->Some_0;
                // the byte that stopped the scan sits inside the content
                assert(j < q);
                assert(s@.subrange(i + 1, q)[j - i - 1] == s@[j as int]);
                assert(!content_ok(s@.subrange(i + 1, q)));
            }
        }
        None
    }
}

/// Reads an unsigned integer token that fits `u64`; agrees with
/// `spec_parse_uint` wherever the value is representable.
pub fn parse_u64_tok(s: &[u8], i: usize) -> (r: Option<(u64, usize)>)
    requires
        i <= s@.len(),
    ensures
        match spec_parse_uint(s@, i as int) {
            Some((v, e)) => if v <= u64::MAX {
                r == Some((v as u64, e as usize)) && i < e <= s@.len()
            } else {
                r is None
            },
            None => r is None,
        },
{
    let n = s.len();
    let mut j = i;
    while j < n && s[j] >= 48 && s[j] <= 57
        invariant
            i <= j <= n == s@.len(),
            digits_end(s@, i as int) == digits_end(s@, j as int),
        decreases n - j,
    {
        proof {
            assert(digits_end(s@, j as int) == digits_end(s@, j + 1));
        }
        j += 1;
    }
    proof {
        assert(digits_end(s@, j as int) == j);
    }
    if j == i {
        return None;
    }
    match parse_digits(s, i, j) {
        Some(v) => Some((v, j)),
        None => {
            proof {
                lemma_digits_end(s@, i as int);
            }
            None
        },
    }
}

} // verus!

verus! {

/// One or more string tokens separated by commas, whitespace allowed;
/// ends just past the whitespace after the last one.
pub open spec fn spec_parse_str_items(s: Seq<u8>, i: int) -> Option<(Seq<Seq<u8>>, int)>
    decreases s.len() - i when 0 <= i <= s.len() via spec_parse_str_items_dec
{
    match spec_parse_string(s, i) {
        None => None,
        Some((c, p)) => {
            let q = ws_end(s, p);
            if q < s.len() && s[q] == 44 {
                match spec_parse_str_items(s, ws_end(s, q + 1)) {
                    None => None,
                    Some((rest, e)) => Some((seq![c] + rest, e)),
                }
            } else {
                Some((seq![c], q))
            }
        },
    }
}

#[via_fn]
proof fn spec_parse_str_items_dec(s: Seq<u8>, i: int) {
    lemma_parse_string_advances(s, i);
    if spec_parse_string(s, i) is Some {
        let p = spec_parse_string(s, i)->Some_0.1;
        lemma_ws_end(s, p);
        let q = ws_end(s, p);
        if q < s.len() && s[q] == 44 {
            lemma_ws_end(s, q + 1);
        }
    }
}

pub proof fn lemma_str_items_advances(s: Seq<u8>, i: int)
    requires
        0 <= i <= s.len(),
    ensures
        match spec_parse_str_items(s, i) {
            Some((items, e)) => i < e <= s.len(),
            None => true,
        },
    decreases s.len() - i,
{
    lemma_parse_string_advances(s, i);
    if spec_parse_string(s, i) is Some {
        let p = spec_parse_string(s, i)->Some_0.1;
        lemma_ws_end(s, p);
        let q = ws_end(s, p);
        if q < s.len() && s[q] == 44 {
            lemma_ws_end(s, q + 1);
            lemma_str_items_advances(s, ws_end(s, q + 1));
        }
    }
}

/// An array of string tokens: `[`, items or nothing, `]`.
pub open spec fn spec_parse_str_array(s: Seq<u8>, i: int) -> Option<(Seq<Seq<u8>>, int)> {
    if 0 <= i < s.len() && s[i] == 91 {
        let j = ws_end(s, i + 1);
        if j < s.len() && s[j] == 93 {
            Some((Seq::empty(), j + 1))
        } else {
            match spec_parse_str_items(s, j) {
                None => None,
                Some((items, e)) => if e < s.len() && s[e] == 93 {
                    Some((items, e + 1))
                } else {
                    None
                },
            }
        }
    } else {
        None
    }
}

pub proof fn lemma_str_array_advances(s: Seq<u8>, i: int)
    ensures
        match spec_parse_str_array(s, i) {
            Some((items, e)) => i < e <= s.len(),
            None => true,
        },
{
    if 0 <= i < s.len() && s[i] == 91 {
        lemma_ws_end(s, i + 1);
        lemma_str_items_advances(s, ws_end(s, i + 1));
    }
}

/// One or more string arrays separated by commas.
pub open spec fn spec_parse_level_items(s: Seq<u8>, i: int) -> Option<(Seq<Seq<Seq<u8>>>, int)>
    decreases s.len() - i when 0 <= i <= s.len() via spec_parse_level_items_dec
{
    match spec_parse_str_array(s, i) {
        None => None,
        Some((c, p)) => {
            let q = ws_end(s, p);
            if q < s.len() && s[q] == 44 {
                match spec_parse_level_items(s, ws_end(s, q + 1)) {
                    None => None,
                    Some((rest, e)) => Some((seq![c] + rest, e)),
                }
            } else {
                Some((seq![c], q))
            }
        },
    }
}

#[via_fn]
proof fn spec_parse_level_items_dec(s: Seq<u8>, i: int) {
    lemma_str_array_advances(s, i);
    if spec_parse_str_array(s, i) is Some {
        let p = spec_parse_str_array(s, i)->Some_0.1;
        lemma_ws_end(s, p);
        let q = ws_end(s, p);
        if q < s.len() && s[q] == 44 {
            lemma_ws_end(s, q + 1);
        }
    }
}

pub proof fn lemma_level_items_advances(s: Seq<u8>, i: int)
    requires
        0 <= i <= s.len(),
    ensures
        match spec_parse_level_items(s, i) {
            Some((items, e)) => i < e <= s.len(),
            None => true,
        },
    decreases s.len() - i,
{
    lemma_str_array_advances(s, i);
    if spec_parse_str_array(s, i) is Some {
        let p = spec_parse_str_array(s, i)->Some_0.1;
        lemma_ws_end(s, p);
        let q = ws_end(s, p);
        if q < s.len() && s[q] == 44 {
            lemma_ws_end(s, q + 1);
            lemma_level_items_advances(s, ws_end(s, q + 1));
        }
    }
}

/// An array of string arrays: the wire shape of one side's levels.
pub open spec fn spec_parse_levels_array(s: Seq<u8>, i: int) -> Option<(Seq<Seq<Seq<u8>>>, int)> {
    if 0 <= i < s.len() && s[i] == 91 {
        let j = ws_end(s, i + 1);
        if j < s.len() && s[j] == 93 {
            Some((Seq::empty(), j + 1))
        } else {
            match spec_parse_level_items(s, j) {
                None => None,
                Some((items, e)) => if e < s.len() && s[e] == 93 {
                    Some((items, e + 1))
                } else {
                    None
                },
            }
        }
    } else {
        None
    }
}

pub proof fn lemma_levels_array_advances(s: Seq<u8>, i: int)
    ensures
        match spec_parse_levels_array(s, i) {
            Some((items, e)) => i < e <= s.len(),
            None => true,
        },
{
    if 0 <= i < s.len() && s[i] == 91 {
        lemma_ws_end(s, i + 1);
        lemma_level_items_advances(s, ws_end(s, i + 1));
    }
}

/// Byte-wise slice comparison.
pub fn bytes_eq(a: &[u8], b: &[u8]) -> (r: bool)
    ensures
        r <==> a@ == b@,
{
    let n = a.len();
    if n != b.len() {
        proof {
            assert(a@.len() != b@.len());
        }
        return false;
    }
    let mut i: usize = 0;
    while i < n
        invariant
            i <= n,
            n == a@.len() == b@.len(),
            forall|j: int| 0 <= j < i ==> a@[j] == b@[j],
        decreases n - i,
    {
        if a[i] != b[i] {
            return false;
        }
        i += 1;
    }
    proof {
        assert(a@ =~= b@);
    }
    true
}

/// A member's opening: its quoted key, a colon, surrounding whitespace.
/// Yields the position of the member's value.
pub open spec fn after_key(s: Seq<u8>, i: int, key: Seq<u8>) -> Option<int> {
    match spec_parse_string(s, i) {
        Some((k, p)) => if k == key {
            let q = ws_end(s, p);
            if q < s.len() && s[q] == 58 {
                Some(ws_end(s, q + 1))
            } else {
                None
            }
        } else {
            None
        },
        None => None,
    }
}

pub proof fn lemma_after_key_advances(s: Seq<u8>, i: int, key: Seq<u8>)
    ensures
        match after_key(s, i, key) {
            Some(p) => i < p <= s.len(),
            None => true,
        },
{
    lemma_parse_string_advances(s, i);
    if spec_parse_string(s, i) is Some {
        let p = spec_parse_string(s, i)->Some_0.1;
        lemma_ws_end(s, p);
        let q = ws_end(s, p);
        if q < s.len() && s[q] == 58 {
            lemma_ws_end(s, q + 1);
        }
    }
}

/// Reads a member's opening; agrees with `after_key`.
pub fn expect_key(s: &[u8], i: usize, key: &[u8]) -> (r: Option<usize>)
    requires
        i <= s@.len(),
    ensures
        match r {
            Some(p) => after_key(s@, i as int, key@) == Some(p as int) && i < p <= s@.len(),
            None => after_key(s@, i as int, key@) is None,
        },
{
    match parse_string_tok(s, i) {
        None => None,
        Some((k, p)) => {
            if !bytes_eq(k.as_slice(), key) {
                return None;
            }
            let q = skip_ws(s, p);
            if q < s.len() && s[q] == 58 {
                Some(skip_ws(s, q + 1))
            } else {
                None
            }
        },
    }
}

/// A comma between members, whitespace allowed; yields the position after.
pub open spec fn after_comma(s: Seq<u8>, p: int) -> Option<int> {
    let q = ws_end(s, p);
    if q < s.len() && s[q] == 44 {
        Some(ws_end(s, q + 1))
    } else {
        None
    }
}

/// Reads a comma between members; agrees with `after_comma`.
pub fn expect_comma(s: &[u8], p: usize) -> (r: Option<usize>)
    requires
        p <= s@.len(),
    ensures
        match r {
            Some(p2) => after_comma(s@, p as int) == Some(p2 as int) && p <= p2 <= s@.len(),
            None => after_comma(s@, p as int) is None,
        },
{
    let q = skip_ws(s, p);
    if q < s.len() && s[q] == 44 {
        Some(skip_ws(s, q + 1))
    } else {
        None
    }
}

/// Reads an array of string tokens; agrees with `spec_parse_str_array`.
pub fn parse_str_array_tok(s: &[u8], i: usize) -> (r: Option<(Vec<Vec<u8>>, usize)>)
    requires
        i <= s@.len(),
    ensures
        match r {
            Some((v, p)) => spec_parse_str_array(s@, i as int) == Some((v.deep_view(), p as int))
                && i < p <= s@.len(),
            None => spec_parse_str_array(s@, i as int) is None,
        },
{
    let n = s.len();
    if i >= n || s[i] != 91 {
        return None;
    }
    let j = skip_ws(s, i + 1);
    if j < n && s[j] == 93 {
        let out: Vec<Vec<u8>> = Vec::new();
        proof {
            assert(out.deep_view() =~~= Seq::<Seq<u8>>::empty());
        }
        return Some((out, j + 1));
    }
    let ghost start = j as int;
    let mut items: Vec<Vec<u8>> = Vec::new();
    let mut cur = j;
    loop
        invariant
            i < n == s@.len(),
            s@[i as int] == 91,
            i < j,
            start == ws_end(s@, i + 1),
            !(start < s@.len() && s@[start] == 93),
            j <= cur <= n,
            start <= cur,
            match spec_parse_str_items(s@, cur as int) {
                None => spec_parse_str_items(s@, start) is None,
                Some((rest, e)) => spec_parse_str_items(s@, start) == Some(
                    (items.deep_view() + rest, e),
                ),
            },
        decreases n - cur,
    {
        match parse_string_tok(s, cur) {
            None => {
                return None;
            },
            Some((c, p)) => {
                let q = skip_ws(s, p);
                let ghost old_items = items.deep_view();
                let ghost cseq = c@;
                items.push(c);
                proof {
                    assert(items.deep_view() =~~= old_items.push(cseq));
                }
                if q < n && s[q] == 44 {
                    let cur2 = skip_ws(s, q + 1);
                    proof {
                        match spec_parse_str_items(s@, cur2 as int) {
                            None => {},
                            Some((rest, e)) => {
                                assert(spec_parse_str_items(s@, cur as int) == Some(
                                    (seq![cseq] + rest, e),
                                ));
                                assert(old_items + (seq![cseq] + rest) =~~= items.deep_view()
                                    + rest);
                            },
                        }
                    }
                    cur = cur2;
                } else {
                    proof {
                        assert(spec_parse_str_items(s@, cur as int) == Some(
                            (seq![cseq], q as int),
                        ));
                        assert(old_items + seq![cseq] =~~= items.deep_view());
                        assert(spec_parse_str_items(s@, start) == Some(
                            (items.deep_view(), q as int),
                        ));
                    }
                    if q < n && s[q] == 93 {
                        proof {
                            assert(spec_parse_str_array(s@, i as int) == Some(
                                (items.deep_view(), q + 1),
                            ));
                        }
                        return Some((items, q + 1));
                    } else {
                        return None;
                    }
                }
            },
        }
    }
}

/// Reads an array of string arrays; agrees with `spec_parse_levels_array`.
pub fn parse_levels_array_tok(s: &[u8], i: usize) -> (r: Option<(Vec<Vec<Vec<u8>>>, usize)>)
    requires
        i <= s@.len(),
    ensures
        match r {
            Some((v, p)) => spec_parse_levels_array(s@, i as int) == Some(
                (v.deep_view(), p as int),
            ) && i < p <= s@.len(),
            None => spec_parse_levels_array(s@, i as int) is None,
        },
{
    let n = s.len();
    if i >= n || s[i] != 91 {
        return None;
    }
    let j = skip_ws(s, i + 1);
    if j < n && s[j] == 93 {
        let out: Vec<Vec<Vec<u8>>> = Vec::new();
        proof {
            assert(out.deep_view() =~~= Seq::<Seq<Seq<u8>>>::empty());
        }
        return Some((out, j + 1));
    }
    let ghost start = j as int;
    let mut items: Vec<Vec<Vec<u8>>> = Vec::new();
    let mut cur = j;
    loop
        invariant
            i < n == s@.len(),
            s@[i as int] == 91,
            i < j,
            start == ws_end(s@, i + 1),
            !(start < s@.len() && s@[start] == 93),
            j <= cur <= n,
            start <= cur,
            match spec_parse_level_items(s@, cur as int) {
                None => spec_parse_level_items(s@, start) is None,
                Some((rest, e)) => spec_parse_level_items(s@, start) == Some(
                    (items.deep_view() + rest, e),
                ),
            },
        decreases n - cur,
    {
        match parse_str_array_tok(s, cur) {
            None => {
                return None;
            },
            Some((c, p)) => {
                let q = skip_ws(s, p);
                let ghost old_items = items.deep_view();
                let ghost cseq = c.deep_view();
                items.push(c);
                proof {
                    assert(items.deep_view() =~~= old_items.push(cseq));
                }
                if q < n && s[q] == 44 {
                    let cur2 = skip_ws(s, q + 1);
                    proof {
                        match spec_parse_level_items(s@, cur2 as int) {
                            None => {},
                            Some((rest, e)) => {
                                assert(spec_parse_level_items(s@, cur as int) == Some(
                                    (seq![cseq] + rest, e),
                                ));
                                assert(old_items + (seq![cseq] + rest) =~~= items.deep_view()
                                    + rest);
                            },
                        }
                    }
                    cur = cur2;
                } else {
                    proof {
                        assert(spec_parse_level_items(s@, cur as int) == Some(
                            (seq![cseq], q as int),
                        ));
                        assert(old_items + seq![cseq] =~~= items.deep_view());
                        assert(spec_parse_level_items(s@, start) == Some(
                            (items.deep_view(), q as int),
                        ));
                    }
                    if q < n && s[q] == 93 {
                        proof {
                            assert(spec_parse_levels_array(s@, i as int) == Some(
                                (items.deep_view(), q + 1),
                            ));
                        }
                        return Some((items, q + 1));
                    } else {
                        return None;
                    }
                }
            },
        }
    }
}

} // verus!
