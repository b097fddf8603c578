use vstd::prelude::*;
use crate::container::{
    decode_plain, encode_plain, field_clean, has_hyphen3, header_clean, key_checksum, key_date,
    key_extension, lines_from, line_value, lone_sep_at, lone_sep_pos, has_lone_sep, no_sep_in,
    parse_header, render_header, sep_at, separator, starts_with, HeaderV,
};
use crate::container::{find_nl, lemma_find_nl, lemma_find_nl_unique};

verus! {

// ----------------------------------------------------------------------
// Concrete facts about the fixed markers.
// ----------------------------------------------------------------------

/// The separator holds its one newline at the very end, and opens with
/// three hyphens.
pub proof fn lemma_separator_bytes()
    ensures
        separator().len() == 28,
        separator()[27] == 10u8,
        separator()[0] == 45u8,
        separator()[1] == 45u8,
        separator()[2] == 45u8,
        forall|t: int| 0 <= t < 27 ==> #[trigger] separator()[t] != 10u8,
{
}

/// No header key holds a newline or a hyphen, and the keys tell each
/// other apart by their first bytes, or by the byte where `Date` and
/// `by` diverge.
pub proof fn lemma_key_bytes()
    ensures
        key_extension().len() == 20,
        key_date().len() == 17,
        key_checksum().len() == 15,
        forall|y: int| 0 <= y < 20 ==> #[trigger] key_extension()[y] != 45u8,
        forall|y: int| 0 <= y < 20 ==> #[trigger] key_extension()[y] != 10u8,
        forall|y: int| 0 <= y < 17 ==> #[trigger] key_date()[y] != 45u8,
        forall|y: int| 0 <= y < 17 ==> #[trigger] key_date()[y] != 10u8,
        forall|y: int| 0 <= y < 15 ==> #[trigger] key_checksum()[y] != 45u8,
        forall|y: int| 0 <= y < 15 ==> #[trigger] key_checksum()[y] != 10u8,
        key_extension()[0] == 79u8,
        key_date()[0] == 67u8,
        key_checksum()[0] == 67u8,
        key_date()[11] == 68u8,
        key_checksum()[11] == 98u8,
{
}

// ----------------------------------------------------------------------
// Separator occurrences cannot overlap.
// ----------------------------------------------------------------------

/// Two separator occurrences that overlap coincide: the separator ends
/// in its only newline, so no proper prefix of it equals a suffix of it.
pub proof fn lemma_sep_no_overlap(d: Seq<u8>, i: int, j: int)
    requires
        sep_at(d, i),
        sep_at(d, j),
        i <= j < i + separator().len(),
    ensures
        j == i,
{
    lemma_separator_bytes();
    if i < j {
        let k = j - i;
        let m = 27 - k;
        assert(d.subrange(j, j + 28)[m] == d[j + m]);
        assert(d.subrange(i, i + 28)[k + m] == d[i + k + m]);
        assert(separator()[m] == separator()[27]);
        assert(false);
    }
}

// ----------------------------------------------------------------------
// Line structure of rendered headers.
// ----------------------------------------------------------------------

/// Splitting into lines from position `i` is splitting the suffix from
/// its start.
pub proof fn lemma_lines_shift(d: Seq<u8>, i: int)
    requires
        0 <= i <= d.len(),
    ensures
        lines_from(d, i) == lines_from(d.subrange(i, d.len() as int), 0),
    decreases d.len() - i,
{
    let s = d.subrange(i, d.len() as int);
    if i >= d.len() {
        assert(lines_from(d, i) =~= lines_from(s, 0));
    } else {
        let j = find_nl(d, i);
        lemma_find_nl(d, i);
        assert(forall|k: int| 0 <= k < j - i ==> s[k] == d[i + k] && s[k] != 10u8);
        lemma_find_nl_unique(s, 0, j - i);
        if j >= d.len() {
            assert(s.subrange(0, s.len() as int) =~= s);
            assert(lines_from(d, i) =~= lines_from(s, 0));
        } else {
            lemma_lines_shift(d, j + 1);
            lemma_lines_shift(s, j - i + 1);
            assert(s.subrange(j - i + 1, s.len() as int) =~= d.subrange(j + 1, d.len() as int));
            assert(s.subrange(0, j - i) =~= d.subrange(i, j));
            assert(lines_from(d, i) =~= lines_from(s, 0));
        }
    }
}

/// The lines of `line + newline + rest` are `line` followed by the
/// lines of `rest`, provided `line` holds no newline itself.
pub proof fn lemma_lines_concat(a: Seq<u8>, rest: Seq<u8>)
    requires
        forall|k: int| 0 <= k < a.len() ==> a[k] != 10u8,
    ensures
        lines_from(a + seq![10u8] + rest, 0) == seq![a] + lines_from(rest, 0),
{
    let d = a + seq![10u8] + rest;
    let n = a.len() as int;
    assert(forall|k: int| 0 <= k < n ==> d[k] == a[k]);
    assert(d[n] == 10u8);
    lemma_find_nl_unique(d, 0, n);
    lemma_lines_shift(d, n + 1);
    assert(d.subrange(n + 1, d.len() as int) =~= rest);
    assert(d.subrange(0, n) =~= a);
    assert(lines_from(d, 0) =~= seq![a] + lines_from(rest, 0));
}

// ----------------------------------------------------------------------
// Parsing inverts rendering.
// ----------------------------------------------------------------------

/// Parsing a rendered header recovers the header: each field value
/// stands after its key on its own line, so the lookup of each key
/// finds exactly it.
pub proof fn lemma_parse_render(h: HeaderV)
    requires
        header_clean(h),
    ensures
        parse_header(render_header(h)) == h,
{
    lemma_key_bytes();
    let l1 = key_extension() + h.extension;
    let l2 = key_date() + h.date;
    let l3 = key_checksum() + h.checksum;
    let r = render_header(h);
    let rest1 = l2 + seq![10u8] + (l3 + seq![10u8] + Seq::<u8>::empty());
    let rest2 = l3 + seq![10u8] + Seq::<u8>::empty();
    assert(r =~= l1 + seq![10u8] + rest1);
    assert(forall|k: int| 0 <= k < l1.len() ==> l1[k] != 10u8);
    assert(forall|k: int| 0 <= k < l2.len() ==> l2[k] != 10u8);
    assert(forall|k: int| 0 <= k < l3.len() ==> l3[k] != 10u8);
    lemma_lines_concat(l1, rest1);
    lemma_lines_concat(l2, rest2);
    lemma_lines_concat(l3, Seq::<u8>::empty());
    assert(lines_from(Seq::<u8>::empty(), 0) =~= Seq::<Seq<u8>>::empty());
    let ls = lines_from(r, 0);
    assert(ls =~= seq![l1, l2, l3]);

    // the extension key matches the first line and nothing else is asked
    assert(starts_with(l1, key_extension())) by {
        assert(l1.subrange(0, 20) =~= key_extension());
    }
    assert(l1.subrange(20, l1.len() as int) =~= h.extension);
    assert(line_value(ls, key_extension()) == Some(h.extension));

    // the date key fails on the first line and matches the second
    assert(!starts_with(l1, key_date())) by {
        if starts_with(l1, key_date()) {
            assert(l1.subrange(0, 17)[0] == key_date()[0]);
        }
    }
    assert(ls.subrange(1, 3) =~= seq![l2, l3]);
    assert(starts_with(l2, key_date())) by {
        assert(l2.subrange(0, 17) =~= key_date());
    }
    assert(l2.subrange(17, l2.len() as int) =~= h.date);
    assert(line_value(ls, key_date()) == line_value(ls.subrange(1, 3), key_date()));
    assert(line_value(seq![l2, l3], key_date()) == Some(l2.subrange(17, l2.len() as int)));
    assert(line_value(ls, key_date()) == Some(h.date));

    // the checksum key fails on the first two lines and matches the third
    assert(!starts_with(l1, key_checksum())) by {
        if starts_with(l1, key_checksum()) {
            assert(l1.subrange(0, 15)[0] == key_checksum()[0]);
        }
    }
    assert(!starts_with(l2, key_checksum())) by {
        if starts_with(l2, key_checksum()) {
            assert(l2.subrange(0, 15)[11] == key_checksum()[11]);
            assert(l2[11] == key_date()[11]);
        }
    }
    assert(seq![l2, l3].subrange(1, 2) =~= seq![l3]);
    assert(starts_with(l3, key_checksum())) by {
        assert(l3.subrange(0, 15) =~= key_checksum());
    }
    assert(l3.subrange(15, l3.len() as int) =~= h.checksum);
    assert(line_value(ls, key_checksum()) == line_value(ls.subrange(1, 3), key_checksum()));
    assert(line_value(seq![l2, l3], key_checksum()) == line_value(
        seq![l2, l3].subrange(1, 2),
        key_checksum(),
    ));
    assert(line_value(seq![l3], key_checksum()) == Some(l3.subrange(15, l3.len() as int)));
    assert(line_value(ls, key_checksum()) == Some(h.checksum));
}

// ----------------------------------------------------------------------
// A clean rendered header holds no separator occurrence.
// ----------------------------------------------------------------------

/// A hyphen in a rendered header can only come from one of the three
/// field values: the keys and the newlines hold none.
proof fn lemma_hyphen_in_render(h: HeaderV, x: int)
    requires
        0 <= x < render_header(h).len(),
        render_header(h)[x] == 45u8,
    ensures
        (20 <= x < 20 + h.extension.len() && h.extension[x - 20] == 45u8) || (38
            + h.extension.len() <= x < 38 + h.extension.len() + h.date.len() && h.date[x - 38
            - h.extension.len()] == 45u8) || (54 + h.extension.len() + h.date.len() <= x < 54
            + h.extension.len() + h.date.len() + h.checksum.len() && h.checksum[x - 54
            - h.extension.len() - h.date.len()] == 45u8),
{
    lemma_key_bytes();
    let r = render_header(h);
    let e = h.extension;
    let dt = h.date;
    let c = h.checksum;
    if x < 20 {
        assert(r[x] == key_extension()[x]);
    } else if x < 20 + e.len() {
        assert(r[x] == e[x - 20]);
    } else if x == 20 + e.len() {
        assert(r[x] == 10u8);
    } else if x < 38 + e.len() {
        assert(r[x] == key_date()[x - 21 - e.len()]);
    } else if x < 38 + e.len() + dt.len() {
        assert(r[x] == dt[x - 38 - e.len()]);
    } else if x == 38 + e.len() + dt.len() {
        assert(r[x] == 10u8);
    } else if x < 54 + e.len() + dt.len() {
        assert(r[x] == key_checksum()[x - 39 - e.len() - dt.len()]);
    } else if x < 54 + e.len() + dt.len() + c.len() {
        assert(r[x] == c[x - 54 - e.len() - dt.len()]);
    } else {
        assert(r[x] == 10u8);
    }
}

/// The separator occurs nowhere in a rendered header whose fields are
/// clean: an occurrence would open with three hyphens, which the keys
/// and newlines cannot supply, and which a clean field does not hold.
pub proof fn lemma_render_no_sep(h: HeaderV)
    requires
        header_clean(h),
    ensures
        no_sep_in(render_header(h)),
{
    lemma_separator_bytes();
    let r = render_header(h);
    let e = h.extension;
    let dt = h.date;
    let c = h.checksum;
    assert forall|t: int| !sep_at(r, t) by {
        if sep_at(r, t) {
            assert(r.subrange(t, t + 28)[0] == separator()[0]);
            assert(r.subrange(t, t + 28)[1] == separator()[1]);
            assert(r.subrange(t, t + 28)[2] == separator()[2]);
            assert(r[t] == 45u8 && r[t + 1] == 45u8 && r[t + 2] == 45u8);
            lemma_hyphen_in_render(h, t);
            lemma_hyphen_in_render(h, t + 1);
            lemma_hyphen_in_render(h, t + 2);
            if 20 <= t < 20 + e.len() {
                assert(e[t - 20] == 45u8 && e[t - 19] == 45u8 && e[t - 18] == 45u8);
                assert(has_hyphen3(e));
            } else if 38 + e.len() <= t < 38 + e.len() + dt.len() {
                let o = t - 38 - e.len();
                assert(dt[o] == 45u8 && dt[o + 1] == 45u8 && dt[o + 2] == 45u8);
                assert(has_hyphen3(dt));
            } else {
                let o = t - 54 - e.len() - dt.len();
                assert(c[o] == 45u8 && c[o + 1] == 45u8 && c[o + 2] == 45u8);
                assert(has_hyphen3(c));
            }
        }
    }
}

// ----------------------------------------------------------------------
// The round trip.
// ----------------------------------------------------------------------

/// Encoded content holds exactly one separator occurrence, right after
/// the rendered header, when the header is clean and the payload holds
/// no occurrence of its own.
pub proof fn lemma_encode_lone_sep(h: HeaderV, p: Seq<u8>)
    requires
        header_clean(h),
        no_sep_in(p),
    ensures
        lone_sep_at(encode_plain(h, p), render_header(h).len() as int),
{
    lemma_separator_bytes();
    lemma_render_no_sep(h);
    let r = render_header(h);
    let d = encode_plain(h, p);
    let ln = r.len() as int;
    assert(d.subrange(ln, ln + 28) =~= separator());
    assert(sep_at(d, ln));
    assert forall|j: int| sep_at(d, j) implies j == ln by {
        if j + 28 <= ln {
            assert(d.subrange(j, j + 28) =~= r.subrange(j, j + 28));
            assert(sep_at(r, j));
        } else if j < ln {
            lemma_sep_no_overlap(d, j, ln);
        } else if j < ln + 28 {
            lemma_sep_no_overlap(d, ln, j);
        } else {
            assert(d.subrange(j, j + 28) =~= p.subrange(j - ln - 28, j - ln));
            assert(sep_at(p, j - ln - 28));
        }
    }
}

/// Round trip: decoding encoded content recovers the header and the
/// payload exactly, for every clean header and every payload in which
/// the separator does not occur.
pub proof fn lemma_round_trip(h: HeaderV, p: Seq<u8>)
    requires
        header_clean(h),
        no_sep_in(p),
    ensures
        decode_plain(encode_plain(h, p)) == Ok::<(HeaderV, Seq<u8>), crate::error::ContainerError>(
            (h, p),
        ),
{
    lemma_separator_bytes();
    lemma_encode_lone_sep(h, p);
    let d = encode_plain(h, p);
    let r = render_header(h);
    let ln = r.len() as int;
    assert(has_lone_sep(d));
    assert(lone_sep_at(d, lone_sep_pos(d)));
    assert(lone_sep_pos(d) == ln);
    assert(d.subrange(0, ln) =~= r);
    lemma_parse_render(h);
    assert(d.subrange(ln + 28, d.len() as int) =~= p);
}

// ----------------------------------------------------------------------
// Rewriting the checksum leaves the payload untouched.
// ----------------------------------------------------------------------

/// The payload of well-formed decompressed content holds no separator
/// occurrence: any occurrence there would be a second one in the
/// content.
pub proof fn lemma_payload_no_sep(d: Seq<u8>)
    requires
        decode_plain(d) is Ok,
    ensures
        no_sep_in(decode_plain(d)->Ok_0.1),
{
    lemma_separator_bytes();
    let i = lone_sep_pos(d);
    assert(lone_sep_at(d, i));
    let p = d.subrange(i + 28, d.len() as int);
    assert forall|t: int| !sep_at(p, t) by {
        if sep_at(p, t) {
            assert(d.subrange(i + 28 + t, i + 28 + t + 28) =~= p.subrange(t, t + 28));
            assert(sep_at(d, i + 28 + t));
        }
    }
}

/// The header with one field replaced by a fresh checksum.
pub open spec fn with_checksum(h: HeaderV, checksum: Seq<u8>) -> HeaderV {
    HeaderV { extension: h.extension, date: h.date, checksum }
}

/// Rewriting only the stored checksum of well-formed content and
/// re-encoding yields content that decodes to the identical payload,
/// with only the checksum field of the header differing — provided the
/// parsed fields and the new checksum are clean.
pub proof fn lemma_rewrite_round_trip(d: Seq<u8>, checksum: Seq<u8>)
    requires
        decode_plain(d) is Ok,
        header_clean(decode_plain(d)->Ok_0.0),
        field_clean(checksum),
    ensures
        decode_plain(
            encode_plain(with_checksum(decode_plain(d)->Ok_0.0, checksum), decode_plain(d)->Ok_0.1),
        ) == Ok::<(HeaderV, Seq<u8>), crate::error::ContainerError>(
            (with_checksum(decode_plain(d)->Ok_0.0, checksum), decode_plain(d)->Ok_0.1),
        ),
{
    let h = decode_plain(d)->Ok_0.0;
    let p = decode_plain(d)->Ok_0.1;
    lemma_payload_no_sep(d);
    lemma_round_trip(with_checksum(h, checksum), p);
}

} // verus!
