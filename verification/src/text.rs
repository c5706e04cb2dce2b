//! Verified text utilities: whitespace and separator splitting, line
//! splitting with the standard line-ending rules, character search, and
//! decimal parsing, each against an exact mathematical description.

use vstd::prelude::*;

verus! {

/// ASCII whitespace, as `split_ascii_whitespace` understands it.
pub open spec fn is_space(c: char) -> bool {
    c == ' ' || c == '\t' || c == '\n' || c == '\r' || c == '\u{c}'
}

fn is_space_exec(c: char) -> (b: bool)
    ensures
        b == is_space(c),
{
    c == ' ' || c == '\t' || c == '\n' || c == '\r' || c == '\u{c}'
}

/// The first position at or after `i` holding whitespace, or the length.
pub open spec fn first_space(s: Seq<char>, i: int) -> int
    decreases s.len() - i,
    when 0 <= i <= s.len()
{
    if i >= s.len() {
        i
    } else if is_space(s[i]) {
        i
    } else {
        first_space(s, i + 1)
    }
}

pub proof fn lemma_first_space(s: Seq<char>, i: int)
    requires
        0 <= i <= s.len(),
    ensures
        i <= first_space(s, i) <= s.len(),
        forall|k: int| i <= k < first_space(s, i) ==> !is_space(s[k]),
        first_space(s, i) < s.len() ==> is_space(s[first_space(s, i)]),
    decreases s.len() - i,
{
    if i < s.len() && !is_space(s[i]) {
        lemma_first_space(s, i + 1);
    }
}

/// The first position at or after `i` holding `c`, or the length.
pub open spec fn first_at(s: Seq<char>, i: int, c: char) -> int
    decreases s.len() - i,
    when 0 <= i <= s.len()
{
    if i >= s.len() {
        i
    } else if s[i] == c {
        i
    } else {
        first_at(s, i + 1, c)
    }
}

pub proof fn lemma_first_at(s: Seq<char>, i: int, c: char)
    requires
        0 <= i <= s.len(),
    ensures
        i <= first_at(s, i, c) <= s.len(),
        forall|k: int| i <= k < first_at(s, i, c) ==> s[k] != c,
        first_at(s, i, c) < s.len() ==> s[first_at(s, i, c)] == c,
    decreases s.len() - i,
{
    if i < s.len() && s[i] != c {
        lemma_first_at(s, i + 1, c);
    }
}

/// Whether `c` occurs in `s`.
pub open spec fn has_char(s: Seq<char>, c: char) -> bool {
    exists|i: int| 0 <= i < s.len() && s[i] == c
}

/// The whitespace-separated tokens of `s` from position `i` on.
pub open spec fn split_ws_from(s: Seq<char>, i: int) -> Seq<Seq<char>>
    decreases s.len() - i,
    when 0 <= i <= s.len()
    via split_ws_from_dec
{
    if i >= s.len() {
        Seq::empty()
    } else if is_space(s[i]) {
        split_ws_from(s, i + 1)
    } else {
        seq![s.subrange(i, first_space(s, i))] + split_ws_from(s, first_space(s, i))
    }
}

#[via_fn]
proof fn split_ws_from_dec(s: Seq<char>, i: int) {
    if 0 <= i <= s.len() {
        lemma_first_space(s, i);
    }
}

/// The whitespace-separated tokens of `s`, in order, without empties.
pub open spec fn split_ws(s: Seq<char>) -> Seq<Seq<char>> {
    split_ws_from(s, 0)
}

/// The `c`-separated segments of `s` from position `i` on, empties kept.
pub open spec fn split_char_from(s: Seq<char>, i: int, c: char) -> Seq<Seq<char>>
    decreases s.len() - i,
    when 0 <= i <= s.len()
    via split_char_from_dec
{
    let j = first_at(s, i, c);
    if j >= s.len() {
        seq![s.subrange(i, s.len() as int)]
    } else {
        seq![s.subrange(i, j)] + split_char_from(s, j + 1, c)
    }
}

#[via_fn]
proof fn split_char_from_dec(s: Seq<char>, i: int, c: char) {
    if 0 <= i <= s.len() {
        lemma_first_at(s, i, c);
    }
}

/// The `c`-separated segments of `s`: what `str::split(c)` yields.
pub open spec fn split_char(s: Seq<char>, c: char) -> Seq<Seq<char>> {
    split_char_from(s, 0, c)
}

/// `l` with one trailing carriage return removed.
pub open spec fn strip_cr(l: Seq<char>) -> Seq<char> {
    if l.len() > 0 && l.last() == '\r' {
        l.drop_last()
    } else {
        l
    }
}

/// The lines of `text`, as `str::lines` yields them: split at `\n`, a
/// carriage return before a `\n` stripped, no final empty line.
pub open spec fn lines_of(text: Seq<char>) -> Seq<Seq<char>> {
    let parts = split_char(text, '\n');
    let full = if parts.last().len() == 0 {
        parts.drop_last()
    } else {
        parts
    };
    Seq::new(
        full.len(),
        |k: int|
            if k < parts.len() - 1 {
                strip_cr(full[k])
            } else {
                full[k]
            },
    )
}

/// Whether two string slices hold the same characters.
pub fn str_eq(a: &str, b: &str) -> (r: bool)
    ensures
        r == (a@ == b@),
{
    let na = a.unicode_len();
    let nb = b.unicode_len();
    if na != nb {
        return false;
    }
    let mut i: usize = 0;
    while i < na
        invariant
            na == a@.len(),
            na == b@.len(),
            0 <= i <= na,
            forall|k: int| 0 <= k < i ==> a@[k] == b@[k],
        decreases na - i,
    {
        if a.get_char(i) != b.get_char(i) {
            return false;
        }
        i += 1;
    }
    proof {
        assert(a@ =~= b@);
    }
    true
}

/// Whether `p` is a prefix of `s`.
pub fn str_starts_with(s: &str, p: &str) -> (r: bool)
    ensures
        r == p@.is_prefix_of(s@),
{
    let ns = s.unicode_len();
    let np = p.unicode_len();
    if np > ns {
        return false;
    }
    let mut i: usize = 0;
    while i < np
        invariant
            ns == s@.len(),
            np == p@.len(),
            np <= ns,
            0 <= i <= np,
            forall|k: int| 0 <= k < i ==> s@[k] == p@[k],
        decreases np - i,
    {
        if s.get_char(i) != p.get_char(i) {
            return false;
        }
        i += 1;
    }
    proof {
        assert(p@ =~= s@.subrange(0, p@.len() as int));
    }
    true
}

/// The first position at or after `from` holding `c`, or the length.
pub fn find_from(s: &str, from: usize, c: char) -> (r: usize)
    requires
        from <= s@.len(),
    ensures
        r == first_at(s@, from as int, c),
        from <= r <= s@.len(),
        r < s@.len() ==> s@[r as int] == c,
        forall|k: int| from <= k < r ==> s@[k] != c,
{
    let n = s.unicode_len();
    let mut i: usize = from;
    while i < n
        invariant
            n == s@.len(),
            from <= i <= n,
            forall|k: int| from <= k < i ==> s@[k] != c,
        decreases n - i,
    {
        if s.get_char(i) == c {
            proof {
                lemma_first_at(s@, from as int, c);
            }
            return i;
        }
        i += 1;
    }
    proof {
        lemma_first_at(s@, from as int, c);
    }
    n
}

/// Whether `c` occurs in `s`.
pub fn contains_char(s: &str, c: char) -> (r: bool)
    ensures
        r == has_char(s@, c),
{
    let n = s.unicode_len();
    let j = find_from(s, 0, c);
    j < n
}

/// Relies on `String::push`: appends one character.
#[verifier::external_body]
pub(crate) fn push_char(s: &mut String, c: char)
    ensures
        final(s)@ == old(s)@.push(c),
{
    s.push(c);
}

/// The whitespace-separated tokens of `s`, as `split_ascii_whitespace`
/// yields them.
pub fn split_ws_exec<'a>(s: &'a str) -> (r: Vec<&'a str>)
    ensures
        r.deep_view() == split_ws(s@),
{
    let n = s.unicode_len();
    let mut r: Vec<&'a str> = Vec::new();
    let mut i: usize = 0;
    while i < n
        invariant
            n == s@.len(),
            0 <= i <= n,
            r.deep_view() + split_ws_from(s@, i as int) =~= split_ws(s@),
        decreases n - i,
    {
        let c = s.get_char(i);
        if is_space_exec(c) {
            i += 1;
        } else {
            let mut j: usize = i + 1;
            while j < n && !is_space_exec(s.get_char(j))
                invariant
                    n == s@.len(),
                    i < j <= n,
                    forall|k: int| i <= k < j ==> !is_space(s@[k]),
                decreases n - j,
            {
                j += 1;
            }
            proof {
                lemma_first_space(s@, i as int);
                assert(first_space(s@, i as int) == j);
            }
            let tok = s.substring_char(i, j);
            r.push(tok);
            proof {
                assert(r.deep_view() =~= r.deep_view().subrange(
                    0,
                    r.deep_view().len() - 1,
                ).push(tok@));
            }
            i = j;
        }
    }
    proof {
        assert(r.deep_view() + split_ws_from(s@, n as int) =~= r.deep_view());
    }
    r
}

/// The `c`-separated segments of `s`, as `str::split(c)` yields them.
pub fn split_char_exec<'a>(s: &'a str, c: char) -> (r: Vec<&'a str>)
    ensures
        r.deep_view() == split_char(s@, c),
{
    let n = s.unicode_len();
    let mut r: Vec<&'a str> = Vec::new();
    let mut i: usize = 0;
    loop
        invariant_except_break
            n == s@.len(),
            0 <= i <= n,
            r.deep_view() + split_char_from(s@, i as int, c) =~= split_char(s@, c),
        ensures
            r.deep_view() == split_char(s@, c),
        decreases n - i,
    {
        let j = find_from(s, i, c);
        let seg = s.substring_char(i, j);
        r.push(seg);
        proof {
            assert(r.deep_view() =~= r.deep_view().subrange(0, r.deep_view().len() - 1).push(
                seg@,
            ));
        }
        if j >= n {
            proof {
                assert(split_char_from(s@, i as int, c) =~= seq![s@.subrange(i as int, n as int)]);
                assert(r.deep_view() =~= split_char(s@, c));
            }
            break ;
        }
        i = j + 1;
    }
    r
}

/// `l` with one trailing carriage return removed.
pub fn strip_cr_exec<'a>(l: &'a str) -> (r: &'a str)
    ensures
        r@ == strip_cr(l@),
{
    let n = l.unicode_len();
    if n > 0 && l.get_char(n - 1) == '\r' {
        let r = l.substring_char(0, n - 1);
        proof {
            assert(r@ =~= strip_cr(l@));
        }
        r
    } else {
        l
    }
}

/// The lines of `s`, as `str::lines` yields them.
#[verifier::loop_isolation(false)]
pub fn split_lines_exec<'a>(s: &'a str) -> (r: Vec<&'a str>)
    ensures
        r.deep_view() == lines_of(s@),
{
    let parts = split_char_exec(s, '\n');
    let np = parts.len();
    proof {
        assert(np == split_char(s@, '\n').len());
        assert(np >= 1);
    }
    let mut r: Vec<&'a str> = Vec::new();
    let mut k: usize = 0;
    while k + 1 < np
        invariant
            r@.len() == k,
            0 <= k <= np - 1,
            forall|j: int| 0 <= j < k ==> r@[j]@ == strip_cr(parts.deep_view()[j]),
        decreases np - k,
    {
        let stripped = strip_cr_exec(parts[k]);
        proof {
            assert(parts[k as int]@ == parts.deep_view()[k as int]);
        }
        r.push(stripped);
        k += 1;
    }
    let last = parts[np - 1];
    proof {
        assert(last@ == parts.deep_view()[np - 1]);
        assert forall|j: int| 0 <= j < np - 1 implies lines_of(s@)[j] == strip_cr(
            parts.deep_view()[j],
        ) by {
            let ps = split_char(s@, '\n');
            if ps.last().len() == 0 {
                assert(ps.drop_last()[j] == ps[j]);
            }
        }
    }
    if !last.is_empty() {
        r.push(last);
        proof {
            assert(lines_of(s@).len() == np);
            assert(lines_of(s@)[np - 1] == last@);
            assert forall|j: int| 0 <= j < np implies r.deep_view()[j] == lines_of(s@)[j] by {
                assert(r.deep_view()[j] == r@[j]@);
            }
            assert(r.deep_view() =~= lines_of(s@));
        }
    } else {
        proof {
            assert(lines_of(s@).len() == np - 1);
            assert forall|j: int| 0 <= j < np - 1 implies r.deep_view()[j] == lines_of(s@)[j] by {
                assert(r.deep_view()[j] == r@[j]@);
            }
            assert(r.deep_view() =~= lines_of(s@));
        }
    }
    r
}

/// An ASCII decimal digit.
pub open spec fn is_digit(c: char) -> bool {
    48 <= c as u32 <= 57
}

pub open spec fn digit_val(c: char) -> int {
    c as u32 - 48
}

pub open spec fn all_digits(s: Seq<char>) -> bool {
    forall|i: int| 0 <= i < s.len() ==> is_digit(s[i])
}

/// The numeric value of a digit string, most significant digit first.
pub open spec fn dec_val(s: Seq<char>) -> int
    decreases s.len(),
{
    if s.len() == 0 {
        0
    } else {
        dec_val(s.drop_last()) * 10 + digit_val(s.last())
    }
}

pub proof fn lemma_dec_val_nonneg(s: Seq<char>)
    requires
        all_digits(s),
    ensures
        dec_val(s) >= 0,
    decreases s.len(),
{
    if s.len() > 0 {
        assert(all_digits(s.drop_last()));
        lemma_dec_val_nonneg(s.drop_last());
    }
}

/// A digit string of at most three digits stays under a thousand.
pub proof fn lemma_dec_val_small(s: Seq<char>)
    requires
        all_digits(s),
        s.len() <= 3,
    ensures
        s.len() == 0 ==> dec_val(s) == 0,
        s.len() == 1 ==> dec_val(s) <= 9,
        s.len() == 2 ==> dec_val(s) <= 99,
        s.len() == 3 ==> dec_val(s) <= 999,
        dec_val(s) >= 0,
    decreases s.len(),
{
    if s.len() > 0 {
        assert(all_digits(s.drop_last()));
        lemma_dec_val_small(s.drop_last());
    }
}

/// The digits of a decimal token: an optional leading `+` is skipped.
pub open spec fn digits_part(s: Seq<char>) -> Seq<char> {
    if s.len() > 0 && s[0] == '+' {
        s.drop_first()
    } else {
        s
    }
}

/// What `u8::from_str` makes of `s`: an optional `+`, then at least one
/// digit, the value at most 255.
pub open spec fn dec_u8_of(s: Seq<char>) -> Option<u8> {
    let d = digits_part(s);
    if d.len() > 0 && all_digits(d) && dec_val(d) <= 255 {
        Some(dec_val(d) as u8)
    } else {
        None
    }
}

/// What `u64::from_str` makes of `s`: an optional `+`, then at least one
/// digit, the value at most `u64::MAX`.
pub open spec fn dec_u64_of(s: Seq<char>) -> Option<u64> {
    let d = digits_part(s);
    if d.len() > 0 && all_digits(d) && dec_val(d) <= 0xFFFF_FFFF_FFFF_FFFFu64 {
        Some(dec_val(d) as u64)
    } else {
        None
    }
}

/// Parse a decimal `u8` with `u8::from_str`'s grammar.
pub fn parse_dec_u8(s: &str) -> (r: Option<u8>)
    ensures
        r == dec_u8_of(s@),
{
    let n = s.unicode_len();
    let start: usize = if n > 0 && s.get_char(0) == '+' {
        1
    } else {
        0
    };
    proof {
        assert(digits_part(s@) =~= s@.subrange(start as int, n as int));
    }
    if start >= n {
        return None;
    }
    let mut acc: u32 = 0;
    let mut i: usize = start;
    while i < n
        invariant
            n == s@.len(),
            start <= i <= n,
            start < n,
            digits_part(s@) == s@.subrange(start as int, n as int),
            all_digits(s@.subrange(start as int, i as int)),
            acc == if dec_val(s@.subrange(start as int, i as int)) <= 255 {
                dec_val(s@.subrange(start as int, i as int))
            } else {
                256int
            },
        decreases n - i,
    {
        let c = s.get_char(i);
        let cu = c as u32;
        if !(48 <= cu && cu <= 57) {
            proof {
                assert(!is_digit(s@.subrange(start as int, n as int)[i - start]));
            }
            return None;
        }
        proof {
            let pre = s@.subrange(start as int, i as int);
            let post = s@.subrange(start as int, i + 1 as int);
            assert(post.drop_last() =~= pre);
            assert(post.last() == s@[i as int]);
            lemma_dec_val_nonneg(pre);
        }
        acc = if acc > 255 {
            256
        } else {
            let v = acc * 10 + (cu - 48);
            if v > 255 {
                256
            } else {
                v
            }
        };
        i += 1;
    }
    proof {
        assert(s@.subrange(start as int, n as int) =~= digits_part(s@));
    }
    if acc <= 255 {
        Some(acc as u8)
    } else {
        None
    }
}

/// Parse a decimal `u64` with `u64::from_str`'s grammar.
#[verifier::loop_isolation(false)]
pub fn parse_dec_u64(s: &str) -> (r: Option<u64>)
    ensures
        r == dec_u64_of(s@),
{
    let n = s.unicode_len();
    let start: usize = if n > 0 && s.get_char(0) == '+' {
        1
    } else {
        0
    };
    proof {
        assert(digits_part(s@) =~= s@.subrange(start as int, n as int));
    }
    if start >= n {
        return None;
    }
    let cap: u128 = 0xFFFF_FFFF_FFFF_FFFF;
    let mut acc: u128 = 0;
    let mut i: usize = start;
    while i < n
        invariant
            n == s@.len(),
            start <= i <= n,
            start < n,
            digits_part(s@) == s@.subrange(start as int, n as int),
            all_digits(s@.subrange(start as int, i as int)),
            acc == if dec_val(s@.subrange(start as int, i as int)) <= 0xFFFF_FFFF_FFFF_FFFFu64 {
                dec_val(s@.subrange(start as int, i as int))
            } else {
                0x1_0000_0000_0000_0000int
            },
        decreases n - i,
    {
        let c = s.get_char(i);
        let cu = c as u32;
        if !(48 <= cu && cu <= 57) {
            proof {
                assert(!is_digit(s@.subrange(start as int, n as int)[i - start]));
            }
            return None;
        }
        let ghost pre = s@.subrange(start as int, i as int);
        let ghost post = s@.subrange(start as int, i + 1 as int);
        proof {
            assert(post.drop_last() =~= pre);
            assert(post.last() == s@[i as int]);
            lemma_dec_val_nonneg(pre);
            assert(dec_val(post) == dec_val(pre) * 10 + digit_val(s@[i as int]));
            assert(digit_val(s@[i as int]) == cu - 48);
        }
        if acc > cap {
            proof {
                assert(dec_val(pre) > 0xFFFF_FFFF_FFFF_FFFFu64);
                assert(dec_val(post) > 0xFFFF_FFFF_FFFF_FFFFu64);
            }
            acc = cap + 1;
        } else {
            proof {
                assert(acc == dec_val(pre));
            }
            let v = acc * 10 + ((cu - 48) as u128);
            proof {
                assert(v == dec_val(post));
            }
            if v > cap {
                acc = cap + 1;
            } else {
                acc = v;
            }
        }
        i += 1;
        proof {
            assert(s@.subrange(start as int, i as int) == post);
        }
    }
    proof {
        assert(s@.subrange(start as int, n as int) =~= digits_part(s@));
    }
    if acc <= cap {
        Some(acc as u64)
    } else {
        None
    }
}

/// A strict dotted-quad group: one to three digits, no leading zero,
/// value at most 255.
pub open spec fn quad_group_ok(g: Seq<char>) -> bool {
    1 <= g.len() <= 3 && all_digits(g) && (g.len() > 1 ==> g[0] != '0') && dec_val(g) <= 255
}

/// The 32 address bits packed from four byte values.
pub open spec fn v4_bits(a: int, b: int, c: int, d: int) -> u32 {
    (a * 0x1000000 + b * 0x10000 + c * 0x100 + d) as u32
}

/// What `core::net::Ipv4Addr::from_str` makes of `s`: four strict
/// dotted-quad groups.
pub open spec fn quad_of(s: Seq<char>) -> Option<u32> {
    let parts = split_char(s, '.');
    if parts.len() == 4 && quad_group_ok(parts[0]) && quad_group_ok(parts[1]) && quad_group_ok(
        parts[2],
    ) && quad_group_ok(parts[3]) {
        Some(v4_bits(dec_val(parts[0]), dec_val(parts[1]), dec_val(parts[2]), dec_val(parts[3])))
    } else {
        None
    }
}

/// Parse one strict dotted-quad group.
fn quad_group(s: &str) -> (r: Option<u8>)
    ensures
        r is Some <==> quad_group_ok(s@),
        r is Some ==> r->0 as int == dec_val(s@),
{
    let n = s.unicode_len();
    if n == 0 || n > 3 {
        return None;
    }
    if n > 1 && s.get_char(0) == '0' {
        return None;
    }
    let mut acc: u32 = 0;
    let mut i: usize = 0;
    while i < n
        invariant
            n == s@.len(),
            n <= 3,
            0 <= i <= n,
            all_digits(s@.subrange(0, i as int)),
            acc == dec_val(s@.subrange(0, i as int)),
            acc <= 999,
        decreases n - i,
    {
        let c = s.get_char(i);
        let cu = c as u32;
        if !(48 <= cu && cu <= 57) {
            proof {
                assert(!is_digit(s@[i as int]));
            }
            return None;
        }
        proof {
            let pre = s@.subrange(0, i as int);
            let post = s@.subrange(0, i + 1 as int);
            assert(post.drop_last() =~= pre);
            assert(post.last() == s@[i as int]);
            lemma_dec_val_small(pre);
        }
        acc = acc * 10 + (cu - 48);
        i += 1;
    }
    proof {
        assert(s@.subrange(0, n as int) =~= s@);
    }
    if acc <= 255 {
        Some(acc as u8)
    } else {
        None
    }
}

/// Parse a strict dotted-quad IPv4 address into its 32 address bits.
pub fn parse_quad(s: &str) -> (r: Option<u32>)
    ensures
        r == quad_of(s@),
{
    let parts = split_char_exec(s, '.');
    if parts.len() != 4 {
        return None;
    }
    proof {
        assert(parts.deep_view()[0] == parts[0]@);
        assert(parts.deep_view()[1] == parts[1]@);
        assert(parts.deep_view()[2] == parts[2]@);
        assert(parts.deep_view()[3] == parts[3]@);
    }
    let a = match quad_group(parts[0]) {
        Some(v) => v,
        None => {
            return None;
        },
    };
    let b = match quad_group(parts[1]) {
        Some(v) => v,
        None => {
            return None;
        },
    };
    let c = match quad_group(parts[2]) {
        Some(v) => v,
        None => {
            return None;
        },
    };
    let d = match quad_group(parts[3]) {
        Some(v) => v,
        None => {
            return None;
        },
    };
    let bits: u32 = (a as u32) * 0x1000000 + (b as u32) * 0x10000 + (c as u32) * 0x100 + (d as u32);
    Some(bits)
}

/// `s` with every `.` replaced by `:`.
pub open spec fn dots_to_colons(s: Seq<char>) -> Seq<char> {
    s.map_values(
        |c: char|
            if c == '.' {
                ':'
            } else {
                c
            },
    )
}

/// Replace every `.` with `:`, as the hardware-address reinterpretation
/// of a dotted token requires.
pub fn dots_to_colons_exec(s: &str) -> (r: String)
    ensures
        r@ == dots_to_colons(s@),
{
    let n = s.unicode_len();
    let mut r = String::new();
    let mut i: usize = 0;
    while i < n
        invariant
            n == s@.len(),
            0 <= i <= n,
            r@ =~= dots_to_colons(s@.subrange(0, i as int)),
        decreases n - i,
    {
        let c = s.get_char(i);
        let out = if c == '.' {
            ':'
        } else {
            c
        };
        push_char(&mut r, out);
        proof {
            assert(dots_to_colons(s@.subrange(0, i + 1 as int)) =~= dots_to_colons(
                s@.subrange(0, i as int),
            ).push(out));
        }
        i += 1;
    }
    proof {
        assert(s@.subrange(0, n as int) =~= s@);
    }
    r
}

} // verus!
