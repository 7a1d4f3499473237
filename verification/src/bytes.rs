//! Small tools on byte strings, as the opening exchange needs them.

use vstd::prelude::*;
use vstd::utf8::encode_utf8;

verus! {

/// The bytes that a piece of program text stands for.
pub open spec fn ascii(text: Seq<char>) -> Seq<u8> {
    encode_utf8(text)
}

/// The UTF-8 bytes of a string.
pub fn bytes_of(s: &str) -> (r: Vec<u8>)
    ensures
        r@ == ascii(s@),
{
    vstd::slice::slice_to_vec(s.as_bytes())
}

/// Appends `data` to `out`.
pub fn append_bytes(out: &mut Vec<u8>, data: &[u8])
    ensures
        final(out)@ == old(out)@ + data@,
{
    let n: usize = data.len();
    let mut i: usize = 0;
    while i < n
        invariant
            n == data@.len(),
            i <= n,
            out@ == old(out)@ + data@.subrange(0, i as int),
        decreases n - i,
    {
        out.push(data[i]);
        i += 1;
        assert(out@ =~= old(out)@ + data@.subrange(0, i as int));
    }
    assert(data@.subrange(0, n as int) =~= data@);
}

/// Appends the bytes of `text` to `out`.
pub fn append_text(out: &mut Vec<u8>, text: &str)
    ensures
        final(out)@ == old(out)@ + ascii(text@),
{
    append_bytes(out, text.as_bytes());
}

/// A copy of the bytes of `data` from `from` up to `to`.
pub(crate) fn copy_range(data: &[u8], from: usize, to: usize) -> (r: Vec<u8>)
    requires
        from <= to <= data@.len(),
    ensures
        r@ == data@.subrange(from as int, to as int),
{
    vstd::slice::slice_to_vec(vstd::slice::slice_subrange(data, from, to))
}

/// An upper-case letter as its lower-case one; any other byte as itself.
pub open spec fn lower(b: u8) -> u8 {
    if 65 <= b <= 90 {
        (b + 32) as u8
    } else {
        b
    }
}

/// An upper-case letter as its lower-case one; any other byte as itself.
pub fn to_lower(b: u8) -> (r: u8)
    ensures
        r == lower(b),
{
    if 65 <= b && b <= 90 {
        b + 32
    } else {
        b
    }
}

/// Whether two byte strings are the same but for the case of letters.
pub open spec fn same_ignoring_case(a: Seq<u8>, b: Seq<u8>) -> bool {
    &&& a.len() == b.len()
    &&& forall|i: int| 0 <= i < a.len() ==> lower(#[trigger] a[i]) == lower(b[i])
}

/// Whether two byte strings are the same but for the case of letters.
pub fn eq_ignoring_case(a: &[u8], b: &[u8]) -> (r: bool)
    ensures
        r == same_ignoring_case(a@, b@),
{
    if a.len() != b.len() {
        return false;
    }
    let n: usize = a.len();
    let mut i: usize = 0;
    while i < n
        invariant
            n == a@.len(),
            n == b@.len(),
            i <= n,
            forall|j: int| 0 <= j < i ==> lower(#[trigger] a@[j]) == lower(b@[j]),
        decreases n - i,
    {
        if to_lower(a[i]) != to_lower(b[i]) {
            return false;
        }
        i += 1;
    }
    true
}

/// Whether two byte strings are equal.
pub fn eq_bytes(a: &[u8], b: &[u8]) -> (r: bool)
    ensures
        r == (a@ == b@),
{
    if a.len() != b.len() {
        return false;
    }
    let n: usize = a.len();
    let mut i: usize = 0;
    while i < n
        invariant
            n == a@.len(),
            n == b@.len(),
            i <= n,
            forall|j: int| 0 <= j < i ==> a@[j] == b@[j],
        decreases n - i,
    {
        if a[i] != b[i] {
            return false;
        }
        i += 1;
    }
    assert(a@ =~= b@);
    true
}

/// The least position at or after `from` where `b` stands in `s`, if any.
pub open spec fn position_of(s: Seq<u8>, b: u8, from: int) -> Option<int>
    decreases s.len() - from,
{
    if from < 0 || from >= s.len() {
        None
    } else if s[from] == b {
        Some(from)
    } else {
        position_of(s, b, from + 1)
    }
}

/// The least position at or after `from` where `b` stands in `s`.
pub fn find_byte(s: &[u8], b: u8, from: usize) -> (r: Option<usize>)
    ensures
        r matches Some(i) ==> position_of(s@, b, from as int) == Some(i as int) && from <= i
            < s@.len(),
        r is None ==> position_of(s@, b, from as int) is None,
{
    let n: usize = s.len();
    let mut i: usize = from;
    while i < n
        invariant
            n == s@.len(),
            from <= i,
            position_of(s@, b, from as int) == position_of(s@, b, i as int),
        decreases n - i,
    {
        if s[i] == b {
            return Some(i);
        }
        i += 1;
    }
    None
}

/// Whether `b` stands somewhere in `s`.
pub open spec fn contains_byte(s: Seq<u8>, b: u8) -> bool {
    position_of(s, b, 0) is Some
}

/// A space or a tab.
pub open spec fn is_blank(b: u8) -> bool {
    b == 32 || b == 9
}

/// The number of blanks that `s` starts with, counted from `from`.
pub open spec fn leading_blanks(s: Seq<u8>, from: int) -> int
    decreases s.len() - from,
{
    if 0 <= from < s.len() && is_blank(s[from]) {
        1 + leading_blanks(s, from + 1)
    } else {
        0
    }
}

/// The number of blanks that the first `upto` bytes of `s` end with.
pub open spec fn trailing_blanks(s: Seq<u8>, upto: int) -> int
    decreases upto,
{
    if 0 < upto <= s.len() && is_blank(s[upto - 1]) {
        1 + trailing_blanks(s, upto - 1)
    } else {
        0
    }
}

/// `s` without the blanks at its start and at its end.
pub open spec fn trim(s: Seq<u8>) -> Seq<u8> {
    let lead = leading_blanks(s, 0);
    if lead >= s.len() {
        Seq::empty()
    } else {
        s.subrange(lead, s.len() - trailing_blanks(s, s.len() as int))
    }
}

proof fn lemma_trailing_bound(s: Seq<u8>, upto: int, floor: int)
    requires
        0 <= floor < upto <= s.len(),
        !is_blank(s[floor]),
    ensures
        0 <= trailing_blanks(s, upto) < upto - floor,
    decreases upto,
{
    if is_blank(s[upto - 1]) {
        lemma_trailing_bound(s, upto - 1, floor);
    }
}

/// A copy of `s` without the blanks at its start and at its end.
pub fn trimmed(s: &[u8]) -> (r: Vec<u8>)
    ensures
        r@ == trim(s@),
{
    let n: usize = s.len();
    let mut lead: usize = 0;
    while lead < n && (s[lead] == 32 || s[lead] == 9)
        invariant
            n == s@.len(),
            lead <= n,
            leading_blanks(s@, 0) == lead + leading_blanks(s@, lead as int),
        decreases n - lead,
    {
        lead += 1;
    }
    if lead >= n {
        return Vec::new();
    }
    let mut end: usize = n;
    proof {
        lemma_trailing_bound(s@, n as int, lead as int);
    }
    while end > lead + 1 && (s[end - 1] == 32 || s[end - 1] == 9)
        invariant
            n == s@.len(),
            lead < end <= n,
            !is_blank(s@[lead as int]),
            trailing_blanks(s@, n as int) == (n - end) + trailing_blanks(s@, end as int),
        decreases end,
    {
        end -= 1;
    }
    proof {
        if end == lead + 1 {
            assert(trailing_blanks(s@, end as int) == 0);
        }
    }
    copy_range(s, lead, end)
}

/// The decimal digits of `n`.
pub open spec fn decimal(n: nat) -> Seq<u8>
    decreases n,
{
    if n < 10 {
        seq![(48 + n) as u8]
    } else {
        decimal(n / 10).push((48 + n % 10) as u8)
    }
}

/// Appends the decimal digits of `n`.
pub fn append_decimal(out: &mut Vec<u8>, n: u16)
    ensures
        final(out)@ == old(out)@ + decimal(n as nat),
    decreases n,
{
    if n < 10 {
        out.push(48 + (n as u8));
        assert(out@ =~= old(out)@ + decimal(n as nat));
    } else {
        append_decimal(out, n / 10);
        out.push(48 + ((n % 10) as u8));
        assert(out@ =~= old(out)@ + decimal(n as nat));
    }
}

/// Whether `b` stands nowhere in `s`.
pub open spec fn free_of(s: Seq<u8>, b: u8) -> bool {
    forall|i: int| 0 <= i < s.len() ==> #[trigger] s[i] != b
}

/// A byte that stands nowhere is found nowhere.
pub proof fn lemma_position_none(s: Seq<u8>, b: u8, from: int)
    requires
        0 <= from,
        forall|i: int| from <= i < s.len() ==> #[trigger] s[i] != b,
    ensures
        position_of(s, b, from) is None,
    decreases s.len() - from,
{
    if from < s.len() {
        lemma_position_none(s, b, from + 1);
    }
}

/// A byte is found where it first stands.
pub proof fn lemma_position_first(s: Seq<u8>, b: u8, from: int, at: int)
    requires
        0 <= from <= at < s.len(),
        forall|i: int| from <= i < at ==> #[trigger] s[i] != b,
        s[at] == b,
    ensures
        position_of(s, b, from) == Some(at),
    decreases at - from,
{
    if from < at {
        lemma_position_first(s, b, from + 1, at);
    }
}

/// Whether `s` neither starts nor ends with a blank.
pub open spec fn is_trimmed(s: Seq<u8>) -> bool {
    s.len() > 0 ==> !is_blank(s[0]) && !is_blank(s[s.len() - 1])
}

/// Trimming takes one blank before a trimmed value off again.
pub proof fn lemma_trim_after_space(value: Seq<u8>)
    requires
        is_trimmed(value),
    ensures
        trim(seq![32u8] + value) == value,
{
    let s = seq![32u8] + value;
    if value.len() == 0 {
        assert(leading_blanks(s, 1) == 0);
        assert(trim(s) =~= value);
    } else {
        assert(s[1] == value[0]);
        assert(leading_blanks(s, 1) == 0);
        assert(leading_blanks(s, 0) == 1);
        assert(s[s.len() - 1] == value[value.len() - 1]);
        assert(trailing_blanks(s, s.len() as int) == 0);
        assert(trim(s) =~= value);
    }
}

} // verus!
