//! Laws of rewriting the iXML chunk of a wave file.
use crate::ixml::{merged, replaced_ci};
use crate::merge_laws::{is_closed, law_last_merge_wins};
use crate::riff::{
    chunk_size, decoded, has_tag, is_wave, ixml_chunk, ixml_tag, ixml_text, next_chunk, number_at,
    number_bytes, payload_from, rewritten, span_from, with_chunk, with_size, written,
};
use crate::text::{
    find_from, lemma_find_bounds, lemma_rfind_bounds, lower, rfind, trim_back_char,
};
use crate::ucs::{aswg_text, Ucs};
use vstd::prelude::*;
use vstd::utf8::{encode_utf8, encode_utf8_decode_utf8, encode_utf8_valid_utf8};

verus! {

/// Whole chunks without an iXML chunk among them lead from `p` to `end`.
pub open spec fn leads_to(data: Seq<u8>, p: int, end: int) -> bool
    decreases data.len() - p + 1,
{
    ||| p == end
    ||| {
        &&& 0 <= p
        &&& p + 8 <= data.len()
        &&& next_chunk(data, p) <= data.len()
        &&& !has_tag(data, p, ixml_tag())
        &&& leads_to(data, next_chunk(data, p), end)
    }
}

/// Where the iXML chunk of a wave file stands or will be put.
pub open spec fn chunk_place(data: Seq<u8>) -> (int, int) {
    match span_from(data, 12) {
        Some(span) => span,
        None => (data.len() as int, data.len() as int),
    }
}

/// A wave file in which an iXML chunk stands behind whole chunks, or which whole
/// chunks fill to its last byte.
pub open spec fn has_place(data: Seq<u8>) -> bool {
    is_wave(data) && (span_from(data, 12) is Some || leads_to(data, 12, data.len() as int))
}

/// A number is read back from its bytes.
proof fn lemma_number(n: int)
    requires
        0 <= n < 0x1_0000_0000,
    ensures
        number_bytes(n).len() == 4,
        number_at(number_bytes(n), 0) == n,
{
}

/// An iXML chunk that is found lies behind whole chunks.
proof fn lemma_span_leads(data: Seq<u8>, p: int)
    requires
        span_from(data, p) is Some,
    ensures
        ({
            let (a, b) = span_from(data, p)->0;
            &&& 0 <= p <= a
            &&& a + 8 <= b <= data.len()
            &&& leads_to(data, p, a)
            &&& has_tag(data, a, ixml_tag())
            &&& b == next_chunk(data, a)
        }),
    decreases data.len() - p + 1,
{
    if !has_tag(data, p, ixml_tag()) {
        lemma_span_leads(data, next_chunk(data, p));
    }
}

/// Whole chunks lead forward.
proof fn lemma_leads_forward(data: Seq<u8>, p: int, end: int)
    requires
        leads_to(data, p, end),
        end <= data.len(),
    ensures
        p <= end,
    decreases data.len() - p + 1,
{
    if p != end {
        lemma_leads_forward(data, next_chunk(data, p), end);
    }
}

/// Two files that agree up to an iXML chunk in one of them: the walk finds it.
proof fn lemma_walk(data: Seq<u8>, new: Seq<u8>, p: int, a: int, bytes: Seq<u8>)
    requires
        12 <= p <= a <= data.len(),
        leads_to(data, p, a),
        a + ixml_chunk(bytes).len() <= new.len(),
        bytes.len() < 0x1_0000_0000,
        forall|i: int| 12 <= i < a ==> #[trigger] new[i] == data[i],
        new.subrange(a, a + ixml_chunk(bytes).len()) == ixml_chunk(bytes),
    ensures
        payload_from(new, p) == Some(bytes),
        span_from(new, p) == Some((a, a + ixml_chunk(bytes).len())),
    decreases data.len() - p + 1,
{
    let chunk = ixml_chunk(bytes);
    if p == a {
        let part = new.subrange(a, a + chunk.len());
        lemma_number(bytes.len() as int);
        assert forall|i: int| 0 <= i < chunk.len() implies new[a + i] == #[trigger] chunk[i] by {
            assert(part[i] == new[a + i]);
        }
        assert(new.subrange(a, a + 4) =~= ixml_tag()) by {
            assert(forall|i: int| 0 <= i < 4 ==> chunk[i] == ixml_tag()[i]);
        }
        let size = number_bytes(bytes.len() as int);
        assert(chunk[4] == size[0] && chunk[5] == size[1] && chunk[6] == size[2] && chunk[7]
            == size[3]);
        assert(new[a + 4] == chunk[4] && new[a + 5] == chunk[5] && new[a + 6] == chunk[6] && new[a
            + 7] == chunk[7]);
        assert(chunk_size(new, a) == bytes.len());
        assert(new.subrange(a + 8, a + 8 + bytes.len()) =~= bytes) by {
            assert forall|i: int| 0 <= i < bytes.len() implies new.subrange(
                a + 8,
                a + 8 + bytes.len(),
            )[i] == bytes[i] by {
                assert(new[a + (8 + i)] == chunk[8 + i]);
                assert(chunk[8 + i] == bytes[i]);
            }
        }
    } else {
        let next = next_chunk(data, p);
        lemma_leads_forward(data, next, a);
        assert(chunk_size(new, p) == chunk_size(data, p));
        assert(new.subrange(p, p + 4) =~= data.subrange(p, p + 4));
        lemma_walk(data, new, next, a, bytes);
    }
}

/// Writing changes nothing of a wave file but the iXML chunk and the size in the
/// header: everything before and after the place of the chunk stays.
#[verifier::rlimit(30)]
pub proof fn law_rest_of_the_file_stays(data: Seq<u8>, bytes: Seq<u8>)
    requires
        is_wave(data),
        with_chunk(data, ixml_chunk(bytes)).len() <= u32::MAX,
    ensures
        ({
            let new = with_size(with_chunk(data, ixml_chunk(bytes)));
            let (a, b) = chunk_place(data);
            &&& 12 <= a <= b <= data.len()
            &&& new.len() == data.len() - (b - a) + ixml_chunk(bytes).len()
            &&& is_wave(new)
            &&& number_at(new, 4) == new.len() - 8
            &&& new.subrange(8, a) == data.subrange(8, a)
            &&& new.subrange(a, a + ixml_chunk(bytes).len()) == ixml_chunk(bytes)
            &&& new.subrange(a + ixml_chunk(bytes).len(), new.len() as int) == data.subrange(
                b,
                data.len() as int,
            )
        }),
{
    let chunk = ixml_chunk(bytes);
    let raw = with_chunk(data, chunk);
    let new = with_size(raw);
    let (a, b) = chunk_place(data);
    if span_from(data, 12) is Some {
        lemma_span_leads(data, 12);
    } else {
        assert(raw =~= data.subrange(0, a) + chunk + data.subrange(b, data.len() as int));
    }
    lemma_number(raw.len() - 8);
    let size = number_bytes(raw.len() - 8);
    assert(new.len() == raw.len());
    assert(new[4] == size[0] && new[5] == size[1] && new[6] == size[2] && new[7] == size[3]);
    assert(new.subrange(0, 4) =~= data.subrange(0, 4));
    assert(new.subrange(8, 12) =~= data.subrange(8, 12));
    assert(new.subrange(8, a) =~= data.subrange(8, a));
    assert(new.subrange(a, a + chunk.len()) =~= chunk);
    assert(new.subrange(a + chunk.len(), new.len() as int) =~= data.subrange(
        b,
        data.len() as int,
    ));
}

/// The chunk that was written is found in its place, by a reader and by the next
/// write.
pub proof fn law_chunk_is_found(data: Seq<u8>, bytes: Seq<u8>)
    requires
        has_place(data),
        with_chunk(data, ixml_chunk(bytes)).len() <= u32::MAX,
    ensures
        ({
            let new = with_size(with_chunk(data, ixml_chunk(bytes)));
            let (a, b) = chunk_place(data);
            &&& payload_from(new, 12) == Some(bytes)
            &&& span_from(new, 12) == Some((a, a + ixml_chunk(bytes).len()))
        }),
{
    let new = with_size(with_chunk(data, ixml_chunk(bytes)));
    let (a, b) = chunk_place(data);
    law_rest_of_the_file_stays(data, bytes);
    if span_from(data, 12) is Some {
        lemma_span_leads(data, 12);
    }
    assert forall|i: int| 12 <= i < a implies #[trigger] new[i] == data[i] by {
        assert(new.subrange(8, a)[i - 8] == data.subrange(8, a)[i - 8]);
    }
    lemma_walk(data, new, 12, a, bytes);
}

/// Trimming takes every trailing `c`.
proof fn lemma_trim_end(s: Seq<char>, c: char)
    ensures
        trim_back_char(s, c).len() == 0 || trim_back_char(s, c).last() != c,
    decreases s.len(),
{
    if s.len() > 0 && s.last() == c {
        lemma_trim_end(s.drop_last(), c);
    }
}

/// A document that is written does not end with a null character.
pub proof fn lemma_merged_end(data: Seq<u8>, u: Ucs)
    ensures
        trim_back_char(merged(ixml_text(data), u), '\0') == merged(ixml_text(data), u),
{
    let old = ixml_text(data);
    let m = merged(old, u);
    reveal_strlit("</ASWG>");
    reveal_strlit("</BWFXML>");
    let block = aswg_text(u);
    assert(block.last() == '>') by {
        assert("</ASWG>"@.last() == '>');
    }
    match old {
        Some(x) => {
            lemma_trim_end(decoded(payload_from(data, 12)->0), '\0');
            assert(x.len() == 0 || x.last() != '\0');
            let low = lower(x);
            let start = lower("<ASWG"@);
            let end = lower("</ASWG>"@);
            match replaced_ci(x, "<ASWG"@, "</ASWG>"@, block) {
                Some(r) => {
                    lemma_find_bounds(low, start, 0);
                    let a = find_from(low, start, 0)->0;
                    lemma_find_bounds(low, end, a);
                    let e = find_from(low, end, a)->0;
                    let post = x.subrange(e + 7, x.len() as int);
                    if post.len() > 0 {
                        assert(m.last() == post.last());
                        assert(post.last() == x.last());
                    } else {
                        assert(m =~= x.subrange(0, a) + block);
                        assert(m.last() == block.last());
                    }
                },
                None => {
                    match rfind(x, "</BWFXML>"@) {
                        Some(p) => {
                            lemma_rfind_bounds(x, "</BWFXML>"@, x.len() as int);
                            let post = x.subrange(p, x.len() as int);
                            assert(m.last() == post.last());
                            assert(post.last() == x.last());
                        },
                        None => {
                            assert(m.last() == "</BWFXML>"@.last());
                        },
                    }
                },
            }
        },
        None => {
            assert(m.last() == "</BWFXML>"@.last());
        },
    }
}

/// The document that is written into a wave file is the document that is read
/// from it.
pub proof fn law_written_document_is_read(data: Seq<u8>, u: Ucs)
    requires
        has_place(data),
        rewritten(data, u).len() <= u32::MAX,
    ensures
        ixml_text(written(data, u)) == Some(merged(ixml_text(data), u)),
{
    let xml = merged(ixml_text(data), u);
    let bytes = encode_utf8(xml);
    law_rest_of_the_file_stays(data, bytes);
    law_chunk_is_found(data, bytes);
    encode_utf8_valid_utf8(xml);
    encode_utf8_decode_utf8(xml);
    lemma_merged_end(data, u);
}

/// The last write wins: a second write gives the same file as if the first had
/// not been made.
pub proof fn law_last_write_wins(data: Seq<u8>, first: Ucs, second: Ucs)
    requires
        has_place(data),
        rewritten(data, first).len() <= u32::MAX,
        rewritten(data, second).len() <= u32::MAX,
        ixml_text(data) matches Some(x) ==> is_closed(x),
    ensures
        written(written(data, first), second) == written(data, second),
{
    let one = written(data, first);
    let chunk1 = ixml_chunk(encode_utf8(merged(ixml_text(data), first)));
    let chunk2 = ixml_chunk(encode_utf8(merged(ixml_text(data), second)));
    law_written_document_is_read(data, first);
    law_last_merge_wins(ixml_text(data), first, second);
    law_rest_of_the_file_stays(data, encode_utf8(merged(ixml_text(data), first)));
    law_chunk_is_found(data, encode_utf8(merged(ixml_text(data), first)));
    let (a, b) = chunk_place(data);
    let raw = with_chunk(data, chunk2);
    let raw2 = with_chunk(one, chunk2);
    if span_from(data, 12) is None {
        assert(raw =~= data.subrange(0, a) + chunk2 + data.subrange(b, data.len() as int));
    }
    assert(raw2 == one.subrange(0, a) + chunk2 + one.subrange(
        a + chunk1.len(),
        one.len() as int,
    ));
    assert(raw2.len() == raw.len());
    assert(one.subrange(0, 4) =~= data.subrange(0, 4));
    assert forall|i: int| 8 <= i < raw.len() implies raw2[i] == raw[i] by {
        if i < a {
            assert(one.subrange(8, a)[i - 8] == data.subrange(8, a)[i - 8]);
        }
    }
    assert(raw2.subrange(0, 4) =~= raw.subrange(0, 4)) by {
        assert forall|i: int| 0 <= i < 4 implies raw2.subrange(0, 4)[i] == raw.subrange(0, 4)[i] by {
            assert(one.subrange(0, 4)[i] == data.subrange(0, 4)[i]);
        }
    }
    assert(raw2.subrange(8, raw2.len() as int) =~= raw.subrange(8, raw.len() as int));
}

} // verus!
