//! The grammar of the opening exchange: a first line, header lines and an
//! empty line, each ended by a carriage return and a line feed.

use vstd::prelude::*;
use crate::bytes::{
    append_bytes, contains_byte, copy_range, eq_ignoring_case, find_byte, free_of, is_trimmed,
    position_of, same_ignoring_case, trim, trimmed,
};

verus! {

/// The carriage return.
pub const CR: u8 = 13;

/// The line feed.
pub const LF: u8 = 10;

/// The colon between the name and the value of a header.
pub const COLON: u8 = 58;

/// The space.
pub const SPACE: u8 = 32;

/// The tab.
pub const TAB: u8 = 9;

/// The end of a line.
pub open spec fn crlf() -> Seq<u8> {
    seq![CR, LF]
}

/// A header: a name and a value.
#[derive(Debug, PartialEq, Eq)]
pub struct Header {
    pub name: Vec<u8>,
    pub value: Vec<u8>,
}

/// The mathematical value of a [`Header`].
pub struct HeaderView {
    pub name: Seq<u8>,
    pub value: Seq<u8>,
}

impl View for Header {
    type V = HeaderView;

    open spec fn view(&self) -> HeaderView {
        HeaderView { name: self.name@, value: self.value@ }
    }
}

impl Clone for Header {
    fn clone(&self) -> (r: Header)
        ensures
            r@ == self@,
    {
        Header { name: self.name.clone(), value: self.value.clone() }
    }
}

/// The values of a list of headers, in order.
pub open spec fn header_views(hs: Seq<Header>) -> Seq<HeaderView> {
    Seq::new(hs.len(), |i: int| hs[i]@)
}

/// The value of the first header called `name`, whatever the case of its
/// letters.
pub open spec fn lookup(hs: Seq<HeaderView>, name: Seq<u8>) -> Option<Seq<u8>>
    decreases hs.len(),
{
    if hs.len() == 0 {
        None
    } else if same_ignoring_case(hs[0].name, name) {
        Some(hs[0].value)
    } else {
        lookup(hs.drop_first(), name)
    }
}

/// The value of the first header called `name`.
pub fn find_header<'a>(hs: &'a Vec<Header>, name: &[u8]) -> (r: Option<&'a Vec<u8>>)
    ensures
        match lookup(header_views(hs@), name@) {
            Some(v) => r matches Some(found) && found@ == v,
            None => r is None,
        },
{
    let ghost all = header_views(hs@);
    let n: usize = hs.len();
    let mut i: usize = 0;
    assert(all.skip(0) =~= all);
    while i < n
        invariant
            n == hs@.len(),
            i <= n,
            all == header_views(hs@),
            lookup(all, name@) == lookup(all.skip(i as int), name@),
        decreases n - i,
    {
        assert(all.skip(i as int)[0] == hs@[i as int]@);
        if eq_ignoring_case(hs[i].name.as_slice(), name) {
            return Some(&hs[i].value);
        }
        assert(all.skip(i as int).drop_first() =~= all.skip(i + 1));
        i += 1;
    }
    None
}

/// A header line: the name, a colon, a space and the value.
pub open spec fn format_header(h: HeaderView) -> Seq<u8> {
    h.name + seq![COLON, SPACE] + h.value + crlf()
}

/// The header lines in order, and the empty line that ends them.
pub open spec fn format_headers(hs: Seq<HeaderView>) -> Seq<u8>
    decreases hs.len(),
{
    if hs.len() == 0 {
        crlf()
    } else {
        format_header(hs[0]) + format_headers(hs.drop_first())
    }
}

/// Appends the header lines and the empty line that ends them.
pub fn append_headers(out: &mut Vec<u8>, hs: &Vec<Header>)
    ensures
        final(out)@ == old(out)@ + format_headers(header_views(hs@)),
{
    let ghost all = header_views(hs@);
    let n: usize = hs.len();
    let mut i: usize = 0;
    assert(all.skip(0) =~= all);
    while i < n
        invariant
            n == hs@.len(),
            i <= n,
            all == header_views(hs@),
            out@ + format_headers(all.skip(i as int)) == old(out)@ + format_headers(all),
        decreases n - i,
    {
        let ghost before = out@;
        let ghost rest = all.skip(i as int);
        assert(rest[0] == hs@[i as int]@);
        append_bytes(out, hs[i].name.as_slice());
        out.push(COLON);
        out.push(SPACE);
        append_bytes(out, hs[i].value.as_slice());
        out.push(CR);
        out.push(LF);
        proof {
            assert(out@ =~= before + format_header(rest[0]));
            assert(rest.drop_first() =~= all.skip(i + 1));
            assert(out@ + format_headers(all.skip(i + 1)) =~= before + format_headers(rest));
        }
        i += 1;
    }
    let ghost before = out@;
    out.push(CR);
    out.push(LF);
    assert(out@ =~= before + format_headers(all.skip(n as int)));
}

/// The length of the line that starts at `from`: the number of bytes before
/// the next carriage return and line feed, if the buffer holds them.
pub open spec fn line_len(buf: Seq<u8>, from: int) -> Option<nat>
    decreases buf.len() - from,
{
    if from < 0 || from + 2 > buf.len() {
        None
    } else if buf[from] == CR && buf[from + 1] == LF {
        Some(0)
    } else {
        match line_len(buf, from + 1) {
            Some(n) => Some(n + 1),
            None => None,
        }
    }
}

/// The end of the line that starts at `from`.
pub fn find_line_end(buf: &[u8], from: usize) -> (r: Option<usize>)
    ensures
        r matches Some(end) ==> from <= end && end + 2 <= buf@.len() && line_len(
            buf@,
            from as int,
        ) == Some((end - from) as nat),
        r is None ==> line_len(buf@, from as int) is None,
{
    let total: usize = buf.len();
    let mut i: usize = from;
    while i < total && total - i >= 2
        invariant
            total == buf@.len(),
            from <= i,
            match line_len(buf@, i as int) {
                Some(n) => line_len(buf@, from as int) == Some((n + (i - from)) as nat),
                None => line_len(buf@, from as int) is None,
            },
        decreases total - i,
    {
        if buf[i] == CR && buf[i + 1] == LF {
            return Some(i);
        }
        i += 1;
    }
    None
}

/// Reads a header line: a name that is not empty and holds no blank, a
/// colon, and the value with the blanks around it taken off.
pub open spec fn parse_header_line(line: Seq<u8>) -> Option<HeaderView> {
    match position_of(line, COLON, 0) {
        None => None,
        Some(at) => {
            let name = line.subrange(0, at);
            if at == 0 || contains_byte(name, SPACE) || contains_byte(name, TAB) {
                None
            } else {
                Some(HeaderView { name, value: trim(line.subrange(at + 1, line.len() as int)) })
            }
        },
    }
}

/// Reads a header line; nothing where the line is no header line.
pub fn read_header_line(line: &[u8]) -> (r: Option<Header>)
    ensures
        match parse_header_line(line@) {
            Some(h) => r matches Some(found) && found@ == h,
            None => r is None,
        },
{
    let n: usize = line.len();
    match find_byte(line, COLON, 0) {
        None => None,
        Some(at) => {
            let name = copy_range(line, 0, at);
            if at == 0 || find_byte(name.as_slice(), SPACE, 0).is_some() || find_byte(
                name.as_slice(),
                TAB,
                0,
            ).is_some() {
                None
            } else {
                let rest = vstd::slice::slice_subrange(line, at + 1, n);
                Some(Header { name, value: trimmed(rest) })
            }
        },
    }
}

/// A line and its end lie inside the buffer.
pub proof fn lemma_line_len_bound(buf: Seq<u8>, from: int)
    ensures
        line_len(buf, from) matches Some(n) ==> 0 <= from && from + n + 2 <= buf.len(),
    decreases buf.len() - from,
{
    if from < 0 || from + 2 > buf.len() {
    } else if buf[from] == CR && buf[from + 1] == LF {
    } else {
        lemma_line_len_bound(buf, from + 1);
    }
}

#[via_fn]
proof fn parse_headers_terminates(buf: Seq<u8>, from: int) {
    lemma_line_len_bound(buf, from);
}

/// What the header lines of a buffer are.
pub enum HeaderBlock {
    /// The buffer ends before the empty line.
    Incomplete,
    /// A line is no header line.
    Malformed,
    /// The headers in order, and the position after the empty line.
    Complete(Seq<HeaderView>, int),
}

/// Reads header lines from `from` up to the empty line.
pub open spec fn parse_headers(buf: Seq<u8>, from: int) -> HeaderBlock
    decreases buf.len() - from,
    via parse_headers_terminates
{
    match line_len(buf, from) {
        None => HeaderBlock::Incomplete,
        Some(n) => if n == 0 {
            HeaderBlock::Complete(Seq::empty(), from + 2)
        } else {
            match parse_header_line(buf.subrange(from, from + n)) {
                None => HeaderBlock::Malformed,
                Some(h) => match parse_headers(buf, from + n + 2) {
                    HeaderBlock::Complete(hs, end) => HeaderBlock::Complete(seq![h] + hs, end),
                    other => other,
                },
            }
        },
    }
}

/// The headers end inside the buffer.
pub proof fn lemma_headers_end(buf: Seq<u8>, from: int)
    requires
        0 <= from,
    ensures
        parse_headers(buf, from) matches HeaderBlock::Complete(_, end) ==> from <= end
            <= buf.len(),
    decreases buf.len() - from,
{
    lemma_line_len_bound(buf, from);
    match line_len(buf, from) {
        Some(n) => {
            if n > 0 && parse_header_line(buf.subrange(from, from + n)) is Some {
                lemma_headers_end(buf, from + n + 2);
            }
        },
        None => {},
    }
}

/// What [`read_headers`] returns for a block.
pub open spec fn headers_agree(r: Option<Option<(Vec<Header>, usize)>>, block: HeaderBlock) -> bool {
    match block {
        HeaderBlock::Incomplete => r == Some(None::<(Vec<Header>, usize)>),
        HeaderBlock::Malformed => r is None,
        HeaderBlock::Complete(hs, end) => r matches Some(Some((found, n))) && header_views(found@)
            == hs && n == end,
    }
}

/// Reads header lines from `from` up to the empty line: nothing where a line
/// is malformed, and nothing inside where the buffer has to grow first.
pub fn read_headers(buf: &[u8], from: usize) -> (r: Option<Option<(Vec<Header>, usize)>>)
    ensures
        headers_agree(r, parse_headers(buf@, from as int)),
{
    let total: usize = buf.len();
    if from > total {
        return Some(None);
    }
    let mut found: Vec<Header> = Vec::new();
    let mut at: usize = from;
    loop
        invariant
            total == buf@.len(),
            from <= at <= buf@.len(),
            match parse_headers(buf@, at as int) {
                HeaderBlock::Complete(hs, end) => parse_headers(buf@, from as int)
                    == HeaderBlock::Complete(header_views(found@) + hs, end),
                other => parse_headers(buf@, from as int) == other,
            },
        decreases buf@.len() - at,
    {
        match find_line_end(buf, at) {
            None => {
                return Some(None);
            },
            Some(end) => {
                if end == at {
                    proof {
                        assert(header_views(found@) + Seq::<HeaderView>::empty() =~= header_views(
                            found@,
                        ));
                    }
                    return Some(Some((found, at + 2)));
                }
                let line = vstd::slice::slice_subrange(buf, at, end);
                match read_header_line(line) {
                    None => {
                        return None;
                    },
                    Some(h) => {
                        let ghost before = header_views(found@);
                        let ghost hv = h@;
                        found.push(h);
                        proof {
                            assert(header_views(found@) =~= before.push(hv));
                            match parse_headers(buf@, end + 2) {
                                HeaderBlock::Complete(hs, e) => {
                                    assert(before + (seq![hv] + hs) =~= header_views(found@) + hs);
                                },
                                _ => {},
                            }
                        }
                        at = end + 2;
                    },
                }
            },
        }
    }
}

/// Whether a header can travel and be read back as it is: a name that is
/// not empty and holds no colon, blank or line end, and a value that holds no
/// line end and has no blank at either end.
pub open spec fn header_travels(h: HeaderView) -> bool {
    &&& h.name.len() > 0
    &&& free_of(h.name, COLON)
    &&& free_of(h.name, SPACE)
    &&& free_of(h.name, TAB)
    &&& free_of(h.name, CR)
    &&& free_of(h.value, CR)
    &&& is_trimmed(h.value)
}

/// Whether every header of a list can travel and be read back.
pub open spec fn headers_travel(hs: Seq<HeaderView>) -> bool {
    forall|i: int| 0 <= i < hs.len() ==> header_travels(#[trigger] hs[i])
}

/// The line that starts at `from` ends at the first carriage return, if a
/// line feed follows it.
pub proof fn lemma_line_found(buf: Seq<u8>, from: int, n: nat)
    requires
        0 <= from,
        from + n + 2 <= buf.len(),
        forall|i: int| from <= i < from + n ==> #[trigger] buf[i] != CR,
        buf[from + n] == CR,
        buf[from + n + 1] == LF,
    ensures
        line_len(buf, from) == Some(n),
    decreases n,
{
    if n > 0 {
        lemma_line_found(buf, from + 1, (n - 1) as nat);
    }
}

/// A header line that was written is read back.
pub proof fn lemma_header_line_round_trip(h: HeaderView)
    requires
        header_travels(h),
    ensures
        parse_header_line(h.name + seq![COLON, SPACE] + h.value) == Some(h),
{
    let line = h.name + seq![COLON, SPACE] + h.value;
    let at = h.name.len() as int;
    assert forall|i: int| 0 <= i < at implies #[trigger] line[i] != COLON by {
        assert(line[i] == h.name[i]);
    }
    crate::bytes::lemma_position_first(line, COLON, 0, at);
    assert(line.subrange(0, at) =~= h.name);
    crate::bytes::lemma_position_none(h.name, SPACE, 0);
    crate::bytes::lemma_position_none(h.name, TAB, 0);
    assert(line.subrange(at + 1, line.len() as int) =~= seq![SPACE] + h.value);
    crate::bytes::lemma_trim_after_space(h.value);
}

/// Header lines that were written are read back, whatever stands before
/// them and after the empty line that ends them.
pub proof fn lemma_headers_round_trip(before: Seq<u8>, hs: Seq<HeaderView>, after: Seq<u8>)
    requires
        headers_travel(hs),
    ensures
        parse_headers(before + format_headers(hs) + after, before.len() as int)
            == HeaderBlock::Complete(hs, (before.len() + format_headers(hs).len()) as int),
    decreases hs.len(),
{
    let buf = before + format_headers(hs) + after;
    let from = before.len() as int;
    if hs.len() == 0 {
        assert(buf[from] == CR);
        assert(buf[from + 1] == LF);
        lemma_line_found(buf, from, 0);
        assert(hs =~= Seq::<HeaderView>::empty());
    } else {
        let h = hs[0];
        let rest = hs.drop_first();
        let line = h.name + seq![COLON, SPACE] + h.value;
        let n = line.len();
        assert(header_travels(h));
        assert(format_headers(hs) == line + crlf() + format_headers(rest));
        assert forall|i: int| from <= i < from + n implies #[trigger] buf[i] != CR by {
            assert(buf[i] == line[i - from]);
            if i - from < h.name.len() {
                assert(line[i - from] == h.name[i - from]);
            } else if i - from >= h.name.len() + 2 {
                assert(line[i - from] == h.value[i - from - h.name.len() - 2]);
            }
        }
        assert(buf[from + n] == CR);
        assert(buf[from + n + 1] == LF);
        lemma_line_found(buf, from, n);
        assert(buf.subrange(from, from + n) =~= line);
        lemma_header_line_round_trip(h);
        let next = before + line + crlf();
        assert(headers_travel(rest)) by {
            assert forall|i: int| 0 <= i < rest.len() implies header_travels(
                #[trigger] rest[i],
            ) by {
                assert(rest[i] == hs[i + 1]);
            }
        }
        lemma_headers_round_trip(next, rest, after);
        assert(next + format_headers(rest) + after =~= buf);
        assert(next.len() == from + n + 2);
        assert(seq![h] + rest =~= hs);
        assert(n > 0);
        assert(parse_headers(buf, from + n + 2) == HeaderBlock::Complete(
            rest,
            (next.len() + format_headers(rest).len()) as int,
        ));
        assert(format_headers(hs).len() == n + 2 + format_headers(rest).len());
    }
}

} // verus!
