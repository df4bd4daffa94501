//! The two text policies that turn user text into tokens: one for path
//! segments and one for barcode payloads.

use vstd::prelude::*;
use vstd::utf8::is_ascii_chars;
use crate::text::{
    ascii_upper_char, ascii_uppercase, char_is_whitespace, chars_of, is_whitespace, to_upper,
    uppercase,
};

verus! {

/// The characters that the path policy replaces with a hyphen.
pub open spec fn is_path_unsafe(c: char) -> bool {
    ||| c == '/'
    ||| c == '\\'
    ||| c == '?'
    ||| c == '%'
    ||| c == '*'
    ||| c == ':'
    ||| c == '|'
    ||| c == '"'
    ||| c == '<'
    ||| c == '>'
    ||| c == '.'
    ||| c == ','
    ||| c == ';'
    ||| c == '='
}

/// A hyphen in place of a path-unsafe character, any other character itself.
pub open spec fn hyphenate(c: char) -> char {
    if is_path_unsafe(c) {
        '-'
    } else {
        c
    }
}

/// `s` without its leading white space.
pub open spec fn trim_start(s: Seq<char>) -> Seq<char>
    decreases s.len(),
{
    if s.len() > 0 && is_whitespace(s[0]) {
        trim_start(s.drop_first())
    } else {
        s
    }
}

/// `s` without its trailing white space.
pub open spec fn trim_end(s: Seq<char>) -> Seq<char>
    decreases s.len(),
{
    if s.len() > 0 && is_whitespace(s.last()) {
        trim_end(s.drop_last())
    } else {
        s
    }
}

/// `s` without leading and trailing white space.
pub open spec fn trimmed(s: Seq<char>) -> Seq<char> {
    trim_end(trim_start(s))
}

/// `s` with every path-unsafe character replaced by a hyphen.
pub open spec fn replace_unsafe(s: Seq<char>) -> Seq<char> {
    s.map_values(|c: char| hyphenate(c))
}

/// `s` with every maximal run of white space replaced by one underscore.
pub open spec fn collapse_whitespace(s: Seq<char>) -> Seq<char>
    decreases s.len(),
{
    if s.len() == 0 {
        s
    } else {
        let head = collapse_whitespace(s.drop_last());
        if !is_whitespace(s.last()) {
            head.push(s.last())
        } else if s.len() >= 2 && is_whitespace(s[s.len() - 2]) {
            head
        } else {
            head.push('_')
        }
    }
}

/// `s` with every maximal run of the character `ch` shortened to one `ch`.
pub open spec fn squeeze(s: Seq<char>, ch: char) -> Seq<char>
    decreases s.len(),
{
    if s.len() == 0 {
        s
    } else {
        let head = squeeze(s.drop_last(), ch);
        if s.last() == ch && s.len() >= 2 && s[s.len() - 2] == ch {
            head
        } else {
            head.push(s.last())
        }
    }
}

/// The path policy before upper-casing: trim, hyphens for unsafe characters,
/// one underscore per run of white space, runs of hyphens and of underscores
/// shortened to one.
pub open spec fn path_normalized(s: Seq<char>) -> Seq<char> {
    squeeze(squeeze(collapse_whitespace(replace_unsafe(trimmed(s))), '-'), '_')
}

/// The path-safe token of `s`.
pub open spec fn path_safe(s: Seq<char>) -> Seq<char> {
    uppercase(path_normalized(s))
}

/// `s` without any white space.
pub open spec fn strip_whitespace(s: Seq<char>) -> Seq<char> {
    s.filter(|c: char| !is_whitespace(c))
}

/// The barcode-safe token of `s`.
pub open spec fn barcode_safe(s: Seq<char>) -> Seq<char> {
    uppercase(strip_whitespace(s))
}

fn trim(v: &Vec<char>) -> (r: Vec<char>)
    ensures
        r@ == trimmed(v@),
{
    let n = v.len();
    let mut i: usize = 0;
    proof {
        assert(v@.subrange(0, n as int) =~= v@);
    }
    while i < n && char_is_whitespace(v[i])
        invariant
            i <= n,
            n == v.len(),
            trim_start(v@) == trim_start(v@.subrange(i as int, n as int)),
        decreases n - i,
    {
        proof {
            assert(v@.subrange(i as int, n as int).drop_first() =~= v@.subrange(
                i as int + 1,
                n as int,
            ));
        }
        i += 1;
    }
    let mut j: usize = n;
    while j > i && char_is_whitespace(v[j - 1])
        invariant
            i <= j <= n,
            n == v.len(),
            trim_end(v@.subrange(i as int, n as int)) == trim_end(
                v@.subrange(i as int, j as int),
            ),
        decreases j,
    {
        proof {
            assert(v@.subrange(i as int, j as int).drop_last() =~= v@.subrange(
                i as int,
                j as int - 1,
            ));
        }
        j -= 1;
    }
    let mut r: Vec<char> = Vec::new();
    let mut k: usize = i;
    while k < j
        invariant
            i <= k <= j <= v.len(),
            r@ == v@.subrange(i as int, k as int),
        decreases j - k,
    {
        r.push(v[k]);
        proof {
            assert(r@ =~= v@.subrange(i as int, k as int + 1));
        }
        k += 1;
    }
    r
}

fn replace_unsafe_chars(v: &Vec<char>) -> (r: Vec<char>)
    ensures
        r@ == replace_unsafe(v@),
{
    let mut r: Vec<char> = Vec::new();
    let mut i: usize = 0;
    while i < v.len()
        invariant
            i <= v.len(),
            r@.len() == i,
            forall|k: int| 0 <= k < i ==> r@[k] == hyphenate(#[trigger] v@[k]),
        decreases v.len() - i,
    {
        let c = v[i];
        let unsafe_char = c == '/' || c == '\\' || c == '?' || c == '%' || c == '*' || c == ':'
            || c == '|' || c == '"' || c == '<' || c == '>' || c == '.' || c == ',' || c == ';'
            || c == '=';
        if unsafe_char {
            r.push('-');
        } else {
            r.push(c);
        }
        i += 1;
    }
    proof {
        assert(r@ =~= replace_unsafe(v@));
    }
    r
}

fn collapse_whitespace_runs(v: &Vec<char>) -> (r: Vec<char>)
    ensures
        r@ == collapse_whitespace(v@),
{
    let mut r: Vec<char> = Vec::new();
    let mut in_run = false;
    let mut i: usize = 0;
    while i < v.len()
        invariant
            i <= v.len(),
            r@ == collapse_whitespace(v@.take(i as int)),
            in_run == (i > 0 && is_whitespace(v@[i as int - 1])),
        decreases v.len() - i,
    {
        let c = v[i];
        proof {
            assert(v@.take(i as int + 1).drop_last() =~= v@.take(i as int));
        }
        if !char_is_whitespace(c) {
            r.push(c);
            in_run = false;
        } else {
            if !in_run {
                r.push('_');
            }
            in_run = true;
        }
        i += 1;
    }
    proof {
        assert(v@.take(v.len() as int) =~= v@);
    }
    r
}

fn squeeze_runs(v: &Vec<char>, ch: char) -> (r: Vec<char>)
    ensures
        r@ == squeeze(v@, ch),
{
    let mut r: Vec<char> = Vec::new();
    let mut in_run = false;
    let mut i: usize = 0;
    while i < v.len()
        invariant
            i <= v.len(),
            r@ == squeeze(v@.take(i as int), ch),
            in_run == (i > 0 && v@[i as int - 1] == ch),
        decreases v.len() - i,
    {
        let c = v[i];
        proof {
            assert(v@.take(i as int + 1).drop_last() =~= v@.take(i as int));
        }
        if !(c == ch && in_run) {
            r.push(c);
        }
        in_run = c == ch;
        i += 1;
    }
    proof {
        assert(v@.take(v.len() as int) =~= v@);
    }
    r
}

fn strip_whitespace_chars(v: &Vec<char>) -> (r: Vec<char>)
    ensures
        r@ == strip_whitespace(v@),
{
    let mut r: Vec<char> = Vec::new();
    let mut i: usize = 0;
    while i < v.len()
        invariant
            i <= v.len(),
            r@ == strip_whitespace(v@.take(i as int)),
        decreases v.len() - i,
    {
        let c = v[i];
        proof {
            reveal(Seq::filter);
            assert(v@.take(i as int + 1).drop_last() =~= v@.take(i as int));
        }
        if !char_is_whitespace(c) {
            r.push(c);
        }
        i += 1;
    }
    proof {
        reveal(Seq::filter);
        assert(v@.take(v.len() as int) =~= v@);
    }
    r
}

/// Turns arbitrary text into a token that is safe as one path segment.
pub fn sanitize_for_path(input: &str) -> (r: String)
    ensures
        r@ == path_safe(input@),
{
    let chars = chars_of(input);
    let trimmed = trim(&chars);
    let replaced = replace_unsafe_chars(&trimmed);
    let collapsed = collapse_whitespace_runs(&replaced);
    let hyphens = squeeze_runs(&collapsed, '-');
    let underscores = squeeze_runs(&hyphens, '_');
    to_upper(&underscores)
}

/// Turns arbitrary text into one unbroken upper-case token for a barcode.
pub fn sanitize_for_barcode(input: &str) -> (r: String)
    ensures
        r@ == barcode_safe(input@),
{
    let chars = chars_of(input);
    let stripped = strip_whitespace_chars(&chars);
    to_upper(&stripped)
}

/// Every character of `s` satisfies `p`.
pub open spec fn all_chars(s: Seq<char>, p: spec_fn(char) -> bool) -> bool {
    forall|i: int| 0 <= i < s.len() ==> p(#[trigger] s[i])
}

/// `s` never holds the character `d` twice in a row.
pub open spec fn no_double(s: Seq<char>, d: char) -> bool {
    forall|i: int| 0 <= i < s.len() - 1 ==> !(#[trigger] s[i] == d && s[i + 1] == d)
}

/// What the path policy leaves behind before upper-casing: no white space, no
/// path-unsafe character, no doubled hyphen and no doubled underscore.
pub open spec fn is_path_clean(s: Seq<char>) -> bool {
    &&& all_chars(s, |c: char| !is_whitespace(c) && !is_path_unsafe(c))
    &&& no_double(s, '-')
    &&& no_double(s, '_')
}

proof fn lemma_trim_start_keeps(s: Seq<char>, p: spec_fn(char) -> bool)
    requires
        all_chars(s, p),
    ensures
        all_chars(trim_start(s), p),
    decreases s.len(),
{
    if s.len() > 0 && is_whitespace(s[0]) {
        let t = s.drop_first();
        assert forall|i: int| 0 <= i < t.len() implies p(#[trigger] t[i]) by {
            assert(t[i] == s[i + 1]);
        }
        lemma_trim_start_keeps(t, p);
    }
}

proof fn lemma_trim_end_keeps(s: Seq<char>, p: spec_fn(char) -> bool)
    requires
        all_chars(s, p),
    ensures
        all_chars(trim_end(s), p),
    decreases s.len(),
{
    if s.len() > 0 && is_whitespace(s.last()) {
        let t = s.drop_last();
        assert forall|i: int| 0 <= i < t.len() implies p(#[trigger] t[i]) by {
            assert(t[i] == s[i]);
        }
        lemma_trim_end_keeps(t, p);
    }
}

proof fn lemma_collapse_keeps(s: Seq<char>, p: spec_fn(char) -> bool)
    requires
        all_chars(s, p),
        p('_'),
    ensures
        all_chars(collapse_whitespace(s), p),
        all_chars(collapse_whitespace(s), |c: char| !is_whitespace(c)),
    decreases s.len(),
{
    if s.len() > 0 {
        let t = s.drop_last();
        assert forall|i: int| 0 <= i < t.len() implies p(#[trigger] t[i]) by {
            assert(t[i] == s[i]);
        }
        lemma_collapse_keeps(t, p);
        assert(p(s[s.len() - 1]));
    }
}

proof fn lemma_collapse_fixed(s: Seq<char>)
    requires
        all_chars(s, |c: char| !is_whitespace(c)),
    ensures
        collapse_whitespace(s) == s,
    decreases s.len(),
{
    if s.len() > 0 {
        let t = s.drop_last();
        assert forall|i: int| 0 <= i < t.len() implies !is_whitespace(#[trigger] t[i]) by {
            assert(t[i] == s[i]);
        }
        lemma_collapse_fixed(t);
        assert(!is_whitespace(s[s.len() - 1]));
        assert(t.push(s.last()) =~= s);
    }
}

proof fn lemma_squeeze_shape(s: Seq<char>, ch: char)
    ensures
        squeeze(s, ch).len() <= s.len(),
        s.len() > 0 ==> squeeze(s, ch).len() > 0 && squeeze(s, ch).last() == s.last(),
        no_double(squeeze(s, ch), ch),
    decreases s.len(),
{
    if s.len() > 0 {
        let t = s.drop_last();
        lemma_squeeze_shape(t, ch);
        let head = squeeze(t, ch);
        let out = squeeze(s, ch);
        if s.last() == ch && s.len() >= 2 && s[s.len() - 2] == ch {
            assert(t.last() == s[s.len() - 2]);
        } else {
            assert forall|i: int| 0 <= i < out.len() - 1 implies !(#[trigger] out[i] == ch && out[i
                + 1] == ch) by {
                if i < head.len() - 1 {
                    assert(out[i] == head[i] && out[i + 1] == head[i + 1]);
                } else {
                    assert(out[i] == head.last());
                    assert(t.last() == s[s.len() - 2]);
                }
            }
        }
    }
}

proof fn lemma_squeeze_keeps(s: Seq<char>, ch: char, p: spec_fn(char) -> bool)
    requires
        all_chars(s, p),
    ensures
        all_chars(squeeze(s, ch), p),
    decreases s.len(),
{
    if s.len() > 0 {
        let t = s.drop_last();
        assert forall|i: int| 0 <= i < t.len() implies p(#[trigger] t[i]) by {
            assert(t[i] == s[i]);
        }
        lemma_squeeze_keeps(t, ch, p);
        assert(p(s[s.len() - 1]));
    }
}

proof fn lemma_squeeze_keeps_no_double(s: Seq<char>, ch: char, d: char)
    requires
        no_double(s, d),
    ensures
        no_double(squeeze(s, ch), d),
    decreases s.len(),
{
    if s.len() > 0 {
        let t = s.drop_last();
        assert forall|i: int| 0 <= i < t.len() - 1 implies !(#[trigger] t[i] == d && t[i + 1]
            == d) by {
            assert(t[i] == s[i] && t[i + 1] == s[i + 1]);
        }
        lemma_squeeze_keeps_no_double(t, ch, d);
        lemma_squeeze_shape(t, ch);
        let head = squeeze(t, ch);
        let out = squeeze(s, ch);
        if !(s.last() == ch && s.len() >= 2 && s[s.len() - 2] == ch) {
            assert forall|i: int| 0 <= i < out.len() - 1 implies !(#[trigger] out[i] == d && out[i
                + 1] == d) by {
                if i < head.len() - 1 {
                    assert(out[i] == head[i] && out[i + 1] == head[i + 1]);
                } else {
                    assert(out[i] == head.last());
                    assert(t.last() == s[s.len() - 2]);
                    assert(!(s[s.len() - 2] == d && s[s.len() - 2 + 1] == d));
                }
            }
        }
    }
}

proof fn lemma_squeeze_fixed(s: Seq<char>, ch: char)
    requires
        no_double(s, ch),
    ensures
        squeeze(s, ch) == s,
    decreases s.len(),
{
    if s.len() > 0 {
        let t = s.drop_last();
        assert forall|i: int| 0 <= i < t.len() - 1 implies !(#[trigger] t[i] == ch && t[i + 1]
            == ch) by {
            assert(t[i] == s[i] && t[i + 1] == s[i + 1]);
        }
        lemma_squeeze_fixed(t, ch);
        if s.len() >= 2 {
            assert(!(s[s.len() - 2] == ch && s[s.len() - 2 + 1] == ch));
        }
        assert(t.push(s.last()) =~= s);
    }
}

proof fn lemma_normalized_keeps(s: Seq<char>, p: spec_fn(char) -> bool)
    requires
        all_chars(s, p),
        p('-'),
        p('_'),
    ensures
        all_chars(path_normalized(s), p),
{
    lemma_trim_start_keeps(s, p);
    lemma_trim_end_keeps(trim_start(s), p);
    let r1 = trimmed(s);
    let r2 = replace_unsafe(r1);
    assert forall|i: int| 0 <= i < r2.len() implies p(#[trigger] r2[i]) by {
        assert(r2[i] == hyphenate(r1[i]));
        assert(p(r1[i]));
    }
    lemma_collapse_keeps(r2, p);
    let r3 = collapse_whitespace(r2);
    lemma_squeeze_keeps(r3, '-', p);
    lemma_squeeze_keeps(squeeze(r3, '-'), '_', p);
}

/// The path policy before upper-casing leaves no white space, no path-unsafe
/// character and no doubled separator, whatever the input.
pub proof fn lemma_path_normalized_is_clean(s: Seq<char>)
    ensures
        is_path_clean(path_normalized(s)),
{
    let r1 = trimmed(s);
    let r2 = replace_unsafe(r1);
    let safe = |c: char| !is_path_unsafe(c);
    assert forall|i: int| 0 <= i < r2.len() implies safe(#[trigger] r2[i]) by {
        assert(r2[i] == hyphenate(r1[i]));
    }
    lemma_collapse_keeps(r2, safe);
    let r3 = collapse_whitespace(r2);
    let good = |c: char| !is_whitespace(c) && !is_path_unsafe(c);
    assert forall|i: int| 0 <= i < r3.len() implies good(#[trigger] r3[i]) by {
        assert(safe(r3[i]));
    }
    let r4 = squeeze(r3, '-');
    lemma_squeeze_keeps(r3, '-', good);
    lemma_squeeze_shape(r3, '-');
    let r5 = squeeze(r4, '_');
    lemma_squeeze_keeps(r4, '_', good);
    lemma_squeeze_shape(r4, '_');
    lemma_squeeze_keeps_no_double(r4, '_', '-');
}

/// The path policy before upper-casing changes nothing in text that is
/// already clean.
pub proof fn lemma_path_clean_is_fixed(s: Seq<char>)
    requires
        is_path_clean(s),
    ensures
        path_normalized(s) == s,
{
    if s.len() > 0 {
        assert(!is_whitespace(s[0]));
        assert(!is_whitespace(s[s.len() - 1]));
    }
    assert(trimmed(s) == s);
    assert forall|i: int| 0 <= i < s.len() implies hyphenate(#[trigger] s[i]) == s[i] by {
        assert(!is_path_unsafe(s[i]));
    }
    assert(replace_unsafe(s) =~= s);
    assert forall|i: int| 0 <= i < s.len() implies !is_whitespace(#[trigger] s[i]) by {
        assert(!is_path_unsafe(s[i]));
    }
    lemma_collapse_fixed(s);
    lemma_squeeze_fixed(s, '-');
    lemma_squeeze_fixed(s, '_');
}

/// The path policy before upper-casing is idempotent on every input.
pub proof fn lemma_path_normalized_idempotent(s: Seq<char>)
    ensures
        path_normalized(path_normalized(s)) == path_normalized(s),
{
    lemma_path_normalized_is_clean(s);
    lemma_path_clean_is_fixed(path_normalized(s));
}

proof fn lemma_ascii_uppercase_of_clean(s: Seq<char>)
    requires
        is_ascii_chars(s),
    ensures
        is_ascii_chars(ascii_uppercase(s)),
        ascii_uppercase(ascii_uppercase(s)) == ascii_uppercase(s),
        all_chars(s, |c: char| !is_whitespace(c)) ==> all_chars(
            ascii_uppercase(s),
            |c: char| !is_whitespace(c),
        ),
        is_path_clean(s) ==> is_path_clean(ascii_uppercase(s)),
        all_chars(ascii_uppercase(s), |c: char| !('a' <= c <= 'z')),
{
    let u = ascii_uppercase(s);
    assert forall|i: int| 0 <= i < u.len() implies '\0' <= #[trigger] u[i] <= '\u{7f}' by {
        assert(u[i] == ascii_upper_char(s[i]));
    }
    assert(ascii_uppercase(u) =~= u);
    if all_chars(s, |c: char| !is_whitespace(c)) {
        assert forall|i: int| 0 <= i < u.len() implies !is_whitespace(#[trigger] u[i]) by {
            assert(u[i] == ascii_upper_char(s[i]));
            assert(!is_whitespace(s[i]));
        }
    }
    if is_path_clean(s) {
        assert forall|i: int| 0 <= i < u.len() implies !is_whitespace(#[trigger] u[i])
            && !is_path_unsafe(u[i]) by {
            assert(u[i] == ascii_upper_char(s[i]));
            assert(!is_whitespace(s[i]) && !is_path_unsafe(s[i]));
        }
        assert forall|i: int| 0 <= i < u.len() - 1 implies !(#[trigger] u[i] == '-' && u[i + 1]
            == '-') by {
            assert(!(s[i] == '-' && s[i + 1] == '-'));
        }
        assert forall|i: int| 0 <= i < u.len() - 1 implies !(#[trigger] u[i] == '_' && u[i + 1]
            == '_') by {
            assert(!(s[i] == '_' && s[i + 1] == '_'));
        }
    }
    assert forall|i: int| 0 <= i < u.len() implies !('a' <= #[trigger] u[i] <= 'z') by {
        assert(u[i] == ascii_upper_char(s[i]));
    }
}

/// Text in which every character is white space or ASCII. For such text
/// both policies are spelled out to the last character, because what is
/// left to upper-case is ASCII.
pub open spec fn is_plain_text(s: Seq<char>) -> bool {
    all_chars(s, |c: char| is_whitespace(c) || '\0' <= c <= '\u{7f}')
}

/// On text of white space and ASCII characters the path-safe token is
/// clean, in upper case, and a fixed point of the policy: sanitizing it
/// again changes nothing.
pub proof fn lemma_path_safe_idempotent(s: Seq<char>)
    requires
        is_plain_text(s),
    ensures
        path_safe(path_safe(s)) == path_safe(s),
        is_ascii_chars(path_safe(s)),
        is_path_clean(path_safe(s)),
        all_chars(path_safe(s), |c: char| !('a' <= c <= 'z')),
{
    let n = path_normalized(s);
    let plain = |c: char| is_whitespace(c) || '\0' <= c <= '\u{7f}';
    lemma_normalized_keeps(s, plain);
    lemma_path_normalized_is_clean(s);
    let good = |c: char| !is_whitespace(c) && !is_path_unsafe(c);
    assert forall|i: int| 0 <= i < n.len() implies '\0' <= #[trigger] n[i] <= '\u{7f}' by {
        assert(plain(n[i]));
        assert(good(n[i]));
    }
    lemma_ascii_uppercase_of_clean(n);
    let t = path_safe(s);
    assert(t == ascii_uppercase(n));
    lemma_path_clean_is_fixed(t);
}

proof fn lemma_filter_facts(s: Seq<char>, keep: spec_fn(char) -> bool, p: spec_fn(char) -> bool)
    ensures
        all_chars(s.filter(keep), keep),
        all_chars(s, p) ==> all_chars(s.filter(keep), p),
        all_chars(s, keep) ==> s.filter(keep) == s,
    decreases s.len(),
{
    reveal(Seq::filter);
    if s.len() > 0 {
        let t = s.drop_last();
        lemma_filter_facts(t, keep, p);
        if all_chars(s, p) {
            assert forall|i: int| 0 <= i < t.len() implies p(#[trigger] t[i]) by {
                assert(t[i] == s[i]);
            }
            assert(p(s[s.len() - 1]));
        }
        if all_chars(s, keep) {
            assert forall|i: int| 0 <= i < t.len() implies keep(#[trigger] t[i]) by {
                assert(t[i] == s[i]);
            }
            assert(keep(s[s.len() - 1]));
            assert(t.push(s.last()) =~= s);
        }
    }
}

/// Removing white space leaves none behind, and is idempotent on every input.
pub proof fn lemma_strip_whitespace_idempotent(s: Seq<char>)
    ensures
        all_chars(strip_whitespace(s), |c: char| !is_whitespace(c)),
        strip_whitespace(strip_whitespace(s)) == strip_whitespace(s),
{
    let keep = |c: char| !is_whitespace(c);
    lemma_filter_facts(s, keep, keep);
    lemma_filter_facts(strip_whitespace(s), keep, keep);
}

/// On text of white space and ASCII characters the barcode-safe token
/// holds no white space and no lower-case letter, and is a fixed point of
/// the policy.
pub proof fn lemma_barcode_safe_idempotent(s: Seq<char>)
    requires
        is_plain_text(s),
    ensures
        barcode_safe(barcode_safe(s)) == barcode_safe(s),
        is_ascii_chars(barcode_safe(s)),
        all_chars(barcode_safe(s), |c: char| !is_whitespace(c)),
        all_chars(barcode_safe(s), |c: char| !('a' <= c <= 'z')),
{
    let keep = |c: char| !is_whitespace(c);
    let plain = |c: char| is_whitespace(c) || '\0' <= c <= '\u{7f}';
    let n = strip_whitespace(s);
    lemma_filter_facts(s, keep, plain);
    assert forall|i: int| 0 <= i < n.len() implies '\0' <= #[trigger] n[i] <= '\u{7f}' by {
        assert(plain(n[i]));
        assert(keep(n[i]));
    }
    lemma_ascii_uppercase_of_clean(n);
    let t = barcode_safe(s);
    assert(t == ascii_uppercase(n));
    lemma_filter_facts(t, keep, keep);
}

} // verus!
