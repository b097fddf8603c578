use vstd::prelude::*;
use crate::error::ContainerError;
use crate::xz;

verus! {

// ----------------------------------------------------------------------
// The fixed byte markers of the format.
// ----------------------------------------------------------------------

/// The boundary marker between header and payload:
/// the line `---BEGIN COMPRESSED DATA---` followed by a newline.
pub open spec fn separator() -> Seq<u8> {
    seq![
        45u8, 45u8, 45u8, 66u8, 69u8, 71u8, 73u8, 78u8, 32u8, 67u8, 79u8, 77u8, 80u8, 82u8,
        69u8, 83u8, 83u8, 69u8, 68u8, 32u8, 68u8, 65u8, 84u8, 65u8, 45u8, 45u8, 45u8, 10u8,
    ]
}

/// The header key `Original Extension: `.
pub open spec fn key_extension() -> Seq<u8> {
    seq![
        79u8, 114u8, 105u8, 103u8, 105u8, 110u8, 97u8, 108u8, 32u8, 69u8, 120u8, 116u8,
        101u8, 110u8, 115u8, 105u8, 111u8, 110u8, 58u8, 32u8,
    ]
}

/// The header key `Compressed Date: `.
pub open spec fn key_date() -> Seq<u8> {
    seq![
        67u8, 111u8, 109u8, 112u8, 114u8, 101u8, 115u8, 115u8, 101u8, 100u8, 32u8, 68u8,
        97u8, 116u8, 101u8, 58u8, 32u8,
    ]
}

/// The header key `Compressed by: `.
pub open spec fn key_checksum() -> Seq<u8> {
    seq![
        67u8, 111u8, 109u8, 112u8, 114u8, 101u8, 115u8, 115u8, 101u8, 100u8, 32u8, 98u8,
        121u8, 58u8, 32u8,
    ]
}

/// The fallback extension `unknown`, used when a header names none.
pub open spec fn unknown_extension() -> Seq<u8> {
    seq![117u8, 110u8, 107u8, 110u8, 111u8, 119u8, 110u8]
}

/// The separator marker as a vector.
pub fn separator_bytes() -> (r: Vec<u8>)
    ensures
        r@ == separator(),
{
    let mut v: Vec<u8> = Vec::new();
    v.push(45); v.push(45); v.push(45); v.push(66); v.push(69); v.push(71); v.push(73);
    v.push(78); v.push(32); v.push(67); v.push(79); v.push(77); v.push(80); v.push(82);
    v.push(69); v.push(83); v.push(83); v.push(69); v.push(68); v.push(32); v.push(68);
    v.push(65); v.push(84); v.push(65); v.push(45); v.push(45); v.push(45); v.push(10);
    proof {
        assert(v@ =~= separator());
    }
    v
}

/// The header key `Original Extension: ` as a vector.
pub fn key_extension_bytes() -> (r: Vec<u8>)
    ensures
        r@ == key_extension(),
{
    let mut v: Vec<u8> = Vec::new();
    v.push(79); v.push(114); v.push(105); v.push(103); v.push(105); v.push(110);
    v.push(97); v.push(108); v.push(32); v.push(69); v.push(120); v.push(116);
    v.push(101); v.push(110); v.push(115); v.push(105); v.push(111); v.push(110);
    v.push(58); v.push(32);
    proof {
        assert(v@ =~= key_extension());
    }
    v
}

/// The header key `Compressed Date: ` as a vector.
pub fn key_date_bytes() -> (r: Vec<u8>)
    ensures
        r@ == key_date(),
{
    let mut v: Vec<u8> = Vec::new();
    v.push(67); v.push(111); v.push(109); v.push(112); v.push(114); v.push(101);
    v.push(115); v.push(115); v.push(101); v.push(100); v.push(32); v.push(68);
    v.push(97); v.push(116); v.push(101); v.push(58); v.push(32);
    proof {
        assert(v@ =~= key_date());
    }
    v
}

/// The header key `Compressed by: ` as a vector.
pub fn key_checksum_bytes() -> (r: Vec<u8>)
    ensures
        r@ == key_checksum(),
{
    let mut v: Vec<u8> = Vec::new();
    v.push(67); v.push(111); v.push(109); v.push(112); v.push(114); v.push(101);
    v.push(115); v.push(115); v.push(101); v.push(100); v.push(32); v.push(98);
    v.push(121); v.push(58); v.push(32);
    proof {
        assert(v@ =~= key_checksum());
    }
    v
}

/// The fallback extension `unknown` as a vector.
pub fn unknown_extension_bytes() -> (r: Vec<u8>)
    ensures
        r@ == unknown_extension(),
{
    let mut v: Vec<u8> = Vec::new();
    v.push(117); v.push(110); v.push(107); v.push(110); v.push(111); v.push(119);
    v.push(110);
    proof {
        assert(v@ =~= unknown_extension());
    }
    v
}

// ----------------------------------------------------------------------
// The header.
// ----------------------------------------------------------------------

/// The mathematical value of a header: its three fields as byte
/// sequences.
pub ghost struct HeaderV {
    pub extension: Seq<u8>,
    pub date: Seq<u8>,
    pub checksum: Seq<u8>,
}

/// The plaintext metadata block stored ahead of the separator: the
/// source file's extension, the creation timestamp, and the checksum
/// of the payload at creation time. All three are byte strings.
#[derive(Debug)]
pub struct Header {
    pub extension: Vec<u8>,
    pub date: Vec<u8>,
    pub checksum: Vec<u8>,
}

impl View for Header {
    type V = HeaderV;

    open spec fn view(&self) -> HeaderV {
        HeaderV {
            extension: self.extension@,
            date: self.date@,
            checksum: self.checksum@,
        }
    }
}

// ----------------------------------------------------------------------
// Rendering: header lines, separator, payload.
// ----------------------------------------------------------------------

/// The three header lines in their fixed order, each `Key: Value`
/// followed by a newline.
pub open spec fn render_header(h: HeaderV) -> Seq<u8> {
    key_extension() + h.extension + seq![10u8] + key_date() + h.date + seq![10u8]
        + key_checksum() + h.checksum + seq![10u8]
}

/// The decompressed content of a container: header lines, then the
/// separator, then the payload verbatim.
pub open spec fn encode_plain(h: HeaderV, payload: Seq<u8>) -> Seq<u8> {
    render_header(h) + separator() + payload
}

/// Appends all bytes of `src` to `dst`.
fn push_all(dst: &mut Vec<u8>, src: &Vec<u8>)
    ensures
        final(dst)@ == old(dst)@ + src@,
{
    let mut i: usize = 0;
    while i < src.len()
        invariant
            i <= src@.len(),
            dst@ =~= old(dst)@ + src@.subrange(0, i as int),
        decreases src@.len() - i,
    {
        dst.push(src[i]);
        i = i + 1;
    }
    proof {
        assert(src@.subrange(0, src@.len() as int) =~= src@);
    }
}

/// Renders the three header lines of `h` in their fixed order.
pub fn render_header_bytes(h: &Header) -> (r: Vec<u8>)
    ensures
        r@ == render_header(h@),
{
    let mut v: Vec<u8> = Vec::new();
    let ext_key = key_extension_bytes();
    let date_key = key_date_bytes();
    let by_key = key_checksum_bytes();
    push_all(&mut v, &ext_key);
    push_all(&mut v, &h.extension);
    v.push(10);
    push_all(&mut v, &date_key);
    push_all(&mut v, &h.date);
    v.push(10);
    push_all(&mut v, &by_key);
    push_all(&mut v, &h.checksum);
    v.push(10);
    proof {
        assert(v@ =~= render_header(h@));
    }
    v
}

/// Serializes a header and payload into a container: renders the
/// header lines, appends the separator and the payload, and compresses
/// the concatenation into a single xz stream. Fails only when the
/// compressor itself fails.
pub fn encode(h: &Header, payload: &Vec<u8>) -> (r: Result<Vec<u8>, ContainerError>)
    ensures
        r is Ok ==> xz::unxz_of(r->Ok_0@) == Some(encode_plain(h@, payload@)),
        r is Err ==> r->Err_0 == ContainerError::Codec,
{
    let mut plain = render_header_bytes(h);
    let sep = separator_bytes();
    push_all(&mut plain, &sep);
    push_all(&mut plain, payload);
    proof {
        assert(plain@ =~= encode_plain(h@, payload@));
    }
    xz::compress(&plain)
}

// ----------------------------------------------------------------------
// Separator occurrences.
// ----------------------------------------------------------------------

/// Whether the separator occurs in `d` starting at position `i`.
pub open spec fn sep_at(d: Seq<u8>, i: int) -> bool {
    0 <= i && i + separator().len() <= d.len() && d.subrange(i, i + separator().len()) == separator()
}

/// Whether the separator occurs in `d` at position `i` and nowhere else.
pub open spec fn lone_sep_at(d: Seq<u8>, i: int) -> bool {
    sep_at(d, i) && forall|j: int| sep_at(d, j) ==> j == i
}

/// Whether `d` holds exactly one occurrence of the separator.
pub open spec fn has_lone_sep(d: Seq<u8>) -> bool {
    exists|i: int| lone_sep_at(d, i)
}

/// The position of the single separator occurrence in `d`.
pub open spec fn lone_sep_pos(d: Seq<u8>) -> int {
    choose|i: int| lone_sep_at(d, i)
}

/// Whether the bytes of `d` starting at `i` equal the separator.
fn sep_matches_at(d: &Vec<u8>, sep: &Vec<u8>, i: usize) -> (r: bool)
    requires
        sep@ == separator(),
        i + sep@.len() <= d@.len(),
        d@.len() <= usize::MAX,
    ensures
        r == sep_at(d@, i as int),
{
    let mut k: usize = 0;
    while k < sep.len()
        invariant
            sep@ == separator(),
            i + sep@.len() <= d@.len(),
            d@.len() <= usize::MAX,
            k <= sep@.len(),
            forall|m: int| 0 <= m < k ==> d@[i + m] == separator()[m],
        decreases sep@.len() - k,
    {
        if d[i + k] != sep[k] {
            proof {
                assert(d@.subrange(i as int, i + separator().len())[k as int] != separator()[k as int]);
            }
            return false;
        }
        k = k + 1;
    }
    proof {
        assert(d@.subrange(i as int, i + separator().len()) =~= separator());
    }
    true
}

/// Scans `d` for occurrences of the separator. Returns the position of
/// the occurrence when there is exactly one, and `None` when there is
/// none or more than one.
fn find_lone_sep(d: &Vec<u8>) -> (r: Option<usize>)
    ensures
        match r {
            Some(i) => lone_sep_at(d@, i as int),
            None => !has_lone_sep(d@),
        },
{
    let sep = separator_bytes();
    if d.len() < sep.len() {
        proof {
            assert(forall|j: int| !sep_at(d@, j));
        }
        return None;
    }
    let mut first: Option<usize> = None;
    let mut i: usize = 0;
    let last = d.len() - sep.len();
    while i <= last
        invariant
            sep@ == separator(),
            sep@.len() <= d@.len(),
            last == d@.len() - sep@.len(),
            d@.len() <= usize::MAX,
            i <= last + 1,
            match first {
                Some(f) => sep_at(d@, f as int) && f < i && forall|j: int|
                    j < i && sep_at(d@, j) ==> j == f,
                None => forall|j: int| j < i ==> !sep_at(d@, j),
            },
        decreases last + 1 - i,
    {
        if sep_matches_at(d, &sep, i) {
            match first {
                None => {
                    first = Some(i);
                },
                Some(f) => {
                    proof {
                        assert(sep_at(d@, f as int) && sep_at(d@, i as int) && f as int != i as int);
                        assert forall|k: int| !lone_sep_at(d@, k) by {
                            if lone_sep_at(d@, k) {
                                assert(f as int == k && i as int == k);
                            }
                        }
                    }
                    return None;
                },
            }
        }
        i = i + 1;
    }
    proof {
        assert(forall|j: int| sep_at(d@, j) ==> j <= last as int);
    }
    match first {
        Some(f) => Some(f),
        None => {
            proof {
                assert(forall|j: int| !sep_at(d@, j));
            }
            None
        },
    }
}

// ----------------------------------------------------------------------
// Header lines and their parsing.
// ----------------------------------------------------------------------

/// The position of the first newline in `d` at or after `i`, or
/// `d.len()` when there is none.
pub open spec fn find_nl(d: Seq<u8>, i: int) -> int
    decreases d.len() - i when 0 <= i <= d.len()
{
    if i >= d.len() {
        i
    } else if d[i] == 10u8 {
        i
    } else {
        find_nl(d, i + 1)
    }
}

/// What `find_nl` returns: the first newline position at or after `i`.
pub proof fn lemma_find_nl(d: Seq<u8>, i: int)
    requires
        0 <= i <= d.len(),
    ensures
        i <= find_nl(d, i) <= d.len(),
        find_nl(d, i) < d.len() ==> d[find_nl(d, i)] == 10u8,
        forall|k: int| i <= k < find_nl(d, i) ==> d[k] != 10u8,
    decreases d.len() - i,
{
    if i < d.len() && d[i] != 10u8 {
        lemma_find_nl(d, i + 1);
    }
}

/// A position with no newline before it (from `i` on) that is a newline
/// or the end is exactly `find_nl`.
pub proof fn lemma_find_nl_unique(d: Seq<u8>, i: int, j: int)
    requires
        0 <= i <= j <= d.len(),
        forall|k: int| i <= k < j ==> d[k] != 10u8,
        j == d.len() || d[j] == 10u8,
    ensures
        find_nl(d, i) == j,
    decreases j - i,
{
    if i < j {
        lemma_find_nl_unique(d, i + 1, j);
    }
}

/// The lines of `d` from position `i` on: the segments between
/// newlines, the newlines themselves left out. A final segment without
/// a trailing newline is a line too.
pub open spec fn lines_from(d: Seq<u8>, i: int) -> Seq<Seq<u8>>
    decreases d.len() - i when 0 <= i <= d.len() via lines_from_decreases
{
    if i >= d.len() {
        Seq::empty()
    } else {
        let j = find_nl(d, i);
        if j >= d.len() {
            seq![d.subrange(i, d.len() as int)]
        } else {
            seq![d.subrange(i, j)] + lines_from(d, j + 1)
        }
    }
}

#[via_fn]
proof fn lines_from_decreases(d: Seq<u8>, i: int) {
    if 0 <= i < d.len() {
        lemma_find_nl(d, i);
    }
}

/// Whether `s` begins with the bytes of `p`.
pub open spec fn starts_with(s: Seq<u8>, p: Seq<u8>) -> bool {
    s.len() >= p.len() && s.subrange(0, p.len() as int) == p
}

/// The value of the first line that begins with `key`: the rest of
/// that line. `None` when no line begins with `key`.
pub open spec fn line_value(ls: Seq<Seq<u8>>, key: Seq<u8>) -> Option<Seq<u8>>
    decreases ls.len(),
{
    if ls.len() == 0 {
        None
    } else if starts_with(ls[0], key) {
        Some(ls[0].subrange(key.len() as int, ls[0].len() as int))
    } else {
        line_value(ls.subrange(1, ls.len() as int), key)
    }
}

/// The header a metadata block holds. Each of the three fields is the
/// value of the first line bearing its key; a missing extension line
/// falls back to `unknown`, the other fields to the empty string.
pub open spec fn parse_header(meta: Seq<u8>) -> HeaderV {
    let ls = lines_from(meta, 0);
    HeaderV {
        extension: match line_value(ls, key_extension()) {
            Some(v) => v,
            None => unknown_extension(),
        },
        date: match line_value(ls, key_date()) {
            Some(v) => v,
            None => Seq::empty(),
        },
        checksum: match line_value(ls, key_checksum()) {
            Some(v) => v,
            None => Seq::empty(),
        },
    }
}

// ----------------------------------------------------------------------
// Cleanliness of header fields.
// ----------------------------------------------------------------------

/// Whether three consecutive hyphens occur in `f`. The separator line
/// begins and ends with three hyphens, so a field without them can
/// never complete a separator occurrence.
pub open spec fn has_hyphen3(f: Seq<u8>) -> bool {
    exists|t: int| 0 <= t && t + 3 <= f.len() && #[trigger] f[t] == 45u8 && f[t + 1] == 45u8
        && f[t + 2] == 45u8
}

/// Whether a byte string may stand as a header field value: it holds
/// no newline, which would break the line structure, and no run of
/// three hyphens, which could take part in a separator occurrence.
pub open spec fn field_clean(f: Seq<u8>) -> bool {
    (forall|k: int| 0 <= k < f.len() ==> f[k] != 10u8) && !has_hyphen3(f)
}

/// Whether all three fields of a header are clean.
pub open spec fn header_clean(h: HeaderV) -> bool {
    field_clean(h.extension) && field_clean(h.date) && field_clean(h.checksum)
}

/// Whether the separator occurs nowhere in `x`.
pub open spec fn no_sep_in(x: Seq<u8>) -> bool {
    forall|t: int| !sep_at(x, t)
}

/// Decides whether a byte string may stand as a header field value.
pub fn is_field_clean(f: &Vec<u8>) -> (r: bool)
    ensures
        r == field_clean(f@),
{
    let n = f.len();
    let mut i: usize = 0;
    while i < n
        invariant
            n == f@.len(),
            i <= n,
            forall|k: int| 0 <= k < i ==> f@[k] != 10u8,
            forall|t: int| 0 <= t < i && t + 3 <= n ==> !(#[trigger] f@[t] == 45u8
                && f@[t + 1] == 45u8 && f@[t + 2] == 45u8),
        decreases n - i,
    {
        if f[i] == 10 {
            proof {
                assert(f@[i as int] == 10u8);
            }
            return false;
        }
        if n - i >= 3 && f[i] == 45 && f[i + 1] == 45 && f[i + 2] == 45 {
            proof {
                assert(f@[i as int] == 45u8 && f@[i + 1] == 45u8 && f@[i + 2] == 45u8);
                assert(has_hyphen3(f@));
            }
            return false;
        }
        i = i + 1;
    }
    proof {
        assert(!has_hyphen3(f@));
    }
    true
}

/// Copies the bytes of `d` between `a` and `b` into a fresh vector.
fn sub_bytes(d: &Vec<u8>, a: usize, b: usize) -> (r: Vec<u8>)
    requires
        a <= b <= d@.len(),
    ensures
        r@ == d@.subrange(a as int, b as int),
{
    let mut r: Vec<u8> = Vec::new();
    let mut i: usize = a;
    while i < b
        invariant
            a <= i <= b <= d@.len(),
            r@ =~= d@.subrange(a as int, i as int),
        decreases b - i,
    {
        r.push(d[i]);
        i = i + 1;
    }
    r
}

/// Splits a metadata block into its lines.
fn split_lines(d: &Vec<u8>) -> (r: Vec<Vec<u8>>)
    ensures
        r@.map_values(|l: Vec<u8>| l@) == lines_from(d@, 0),
{
    let n = d.len();
    let mut r: Vec<Vec<u8>> = Vec::new();
    let mut pos: usize = 0;
    proof {
        assert(r@.map_values(|l: Vec<u8>| l@) =~= Seq::<Seq<u8>>::empty());
    }
    while pos < n
        invariant
            pos <= n,
            n == d@.len(),
            lines_from(d@, 0) =~= r@.map_values(|l: Vec<u8>| l@) + lines_from(d@, pos as int),
        decreases n - pos,
    {
        let mut j: usize = pos;
        while j < n && d[j] != 10
            invariant
                pos <= j <= n,
                n == d@.len(),
                forall|k: int| pos <= k < j ==> d@[k] != 10u8,
            decreases n - j,
        {
            j = j + 1;
        }
        proof {
            lemma_find_nl_unique(d@, pos as int, j as int);
        }
        let line = sub_bytes(d, pos, j);
        let ghost before = r@.map_values(|l: Vec<u8>| l@);
        r.push(line);
        proof {
            assert(r@.map_values(|l: Vec<u8>| l@) =~= before.push(line@));
        }
        if j < n {
            pos = j + 1;
        } else {
            proof {
                assert(lines_from(d@, pos as int) =~= seq![line@]);
                assert(lines_from(d@, 0) =~= r@.map_values(|l: Vec<u8>| l@) + lines_from(
                    d@,
                    n as int,
                ));
            }
            pos = n;
        }
    }
    r
}

/// Whether `s` begins with the bytes of `p`.
fn starts_with_bytes(s: &Vec<u8>, p: &Vec<u8>) -> (r: bool)
    ensures
        r == starts_with(s@, p@),
{
    if s.len() < p.len() {
        return false;
    }
    let mut k: usize = 0;
    while k < p.len()
        invariant
            p@.len() <= s@.len(),
            k <= p@.len(),
            forall|m: int| 0 <= m < k ==> s@[m] == p@[m],
        decreases p@.len() - k,
    {
        if s[k] != p[k] {
            proof {
                assert(s@.subrange(0, p@.len() as int)[k as int] != p@[k as int]);
            }
            return false;
        }
        k = k + 1;
    }
    proof {
        assert(s@.subrange(0, p@.len() as int) =~= p@);
    }
    true
}

/// The value of the first line of `lines` that begins with `key`.
fn find_line_value(lines: &Vec<Vec<u8>>, key: &Vec<u8>) -> (r: Option<Vec<u8>>)
    ensures
        match r {
            Some(v) => line_value(lines@.map_values(|l: Vec<u8>| l@), key@) == Some(v@),
            None => line_value(lines@.map_values(|l: Vec<u8>| l@), key@) is None,
        },
{
    let ghost all = lines@.map_values(|l: Vec<u8>| l@);
    proof {
        assert(all.subrange(0, all.len() as int) =~= all);
    }
    let mut idx: usize = 0;
    while idx < lines.len()
        invariant
            idx <= lines@.len(),
            all == lines@.map_values(|l: Vec<u8>| l@),
            line_value(all, key@) == line_value(
                all.subrange(idx as int, all.len() as int),
                key@,
            ),
        decreases lines@.len() - idx,
    {
        let ghost rest = all.subrange(idx as int, all.len() as int);
        proof {
            assert(rest[0] == lines@[idx as int]@);
        }
        if starts_with_bytes(&lines[idx], key) {
            let v = sub_bytes(&lines[idx], key.len(), lines[idx].len());
            return Some(v);
        }
        proof {
            assert(rest.subrange(1, rest.len() as int) =~= all.subrange(
                idx + 1,
                all.len() as int,
            ));
        }
        idx = idx + 1;
    }
    proof {
        assert(all.subrange(lines@.len() as int, all.len() as int) =~= Seq::<Seq<u8>>::empty());
    }
    None
}

/// Parses a metadata block into a header: the value of each recognized
/// key line, with `unknown` standing in for a missing extension and
/// the empty string for a missing date or checksum.
pub fn parse_header_bytes(meta: &Vec<u8>) -> (r: Header)
    ensures
        r@ == parse_header(meta@),
{
    let lines = split_lines(meta);
    let ext_key = key_extension_bytes();
    let date_key = key_date_bytes();
    let by_key = key_checksum_bytes();
    let extension = match find_line_value(&lines, &ext_key) {
        Some(v) => v,
        None => unknown_extension_bytes(),
    };
    let date = match find_line_value(&lines, &date_key) {
        Some(v) => v,
        None => Vec::new(),
    };
    let checksum = match find_line_value(&lines, &by_key) {
        Some(v) => v,
        None => Vec::new(),
    };
    Header { extension, date, checksum }
}

// ----------------------------------------------------------------------
// Decoding.
// ----------------------------------------------------------------------

/// What decompressed container content decodes to: with exactly one
/// separator occurrence, the header parsed from what stands before it
/// and the payload standing after it, verbatim; with none or several,
/// a format error.
pub open spec fn decode_plain(d: Seq<u8>) -> Result<(HeaderV, Seq<u8>), ContainerError> {
    if has_lone_sep(d) {
        let i = lone_sep_pos(d);
        Ok((parse_header(d.subrange(0, i)), d.subrange(i + separator().len(), d.len() as int)))
    } else {
        Err(ContainerError::Format)
    }
}

/// What a container's bytes decode to: a codec error when they are not
/// a well-formed xz stream, else `decode_plain` of the decompressed
/// content.
pub open spec fn decode_of(c: Seq<u8>) -> Result<(HeaderV, Seq<u8>), ContainerError> {
    match xz::unxz_of(c) {
        Some(d) => decode_plain(d),
        None => Err(ContainerError::Codec),
    }
}

/// Splits decompressed container content on the single separator
/// occurrence and parses the header. Rejects content with no or more
/// than one occurrence.
pub fn decode_plain_bytes(d: &Vec<u8>) -> (r: Result<(Header, Vec<u8>), ContainerError>)
    ensures
        match r {
            Ok(hp) => decode_plain(d@) == Ok::<(HeaderV, Seq<u8>), ContainerError>(
                (hp.0@, hp.1@),
            ),
            Err(e) => decode_plain(d@) == Err::<(HeaderV, Seq<u8>), ContainerError>(e),
        },
{
    match find_lone_sep(d) {
        None => Err(ContainerError::Format),
        Some(i) => {
            proof {
                assert(lone_sep_at(d@, lone_sep_pos(d@)));
                assert(lone_sep_pos(d@) == i as int);
                assert(separator().len() == 28);
            }
            let n = d.len();
            let meta = sub_bytes(d, 0, i);
            let payload = sub_bytes(d, i + 28, n);
            let header = parse_header_bytes(&meta);
            Ok((header, payload))
        },
    }
}

/// Deserializes a container: decompresses the stream and splits it on
/// the separator. Fails with a codec error on bytes that are not a
/// well-formed xz stream and with a format error when the decompressed
/// content does not hold exactly one separator occurrence.
pub fn decode(c: &Vec<u8>) -> (r: Result<(Header, Vec<u8>), ContainerError>)
    ensures
        match r {
            Ok(hp) => decode_of(c@) == Ok::<(HeaderV, Seq<u8>), ContainerError>((hp.0@, hp.1@)),
            Err(e) => decode_of(c@) == Err::<(HeaderV, Seq<u8>), ContainerError>(e),
        },
{
    let d = match xz::decompress(c) {
        Ok(d) => d,
        Err(e) => {
            return Err(e);
        },
    };
    decode_plain_bytes(&d)
}

} // verus!
