//! The bytes of the wire protocol: numbers, strings and tab entries.
//!
//! Numbers are written in little-endian order.  A string is written as the
//! length of its UTF-8 encoding, in four bytes, followed by the encoding.
//! Every `parse_*` function reads one value from the front of its input
//! and returns it with the input that is left.
use crate::entry::{entry_views, TabEntry, TabEntryView};
use crate::size::TerminalSize;
use crate::text::word_views;
use vstd::bytes::{
    lemma_auto_spec_u16_to_from_le_bytes, lemma_auto_spec_u32_to_from_le_bytes,
    lemma_auto_spec_u64_to_from_le_bytes, spec_u16_from_le_bytes, spec_u16_to_le_bytes,
    spec_u32_from_le_bytes, spec_u32_to_le_bytes, spec_u64_from_le_bytes, spec_u64_to_le_bytes,
    u16_from_le_bytes, u16_to_le_bytes, u32_from_le_bytes, u32_to_le_bytes, u64_from_le_bytes,
    u64_to_le_bytes,
};
use vstd::prelude::*;
use vstd::slice::{slice_subrange, slice_to_vec};
use vstd::utf8::{
    decode_utf8, decode_utf8_encode_utf8, encode_utf8, encode_utf8_decode_utf8,
    encode_utf8_valid_utf8, valid_utf8,
};

verus! {

pub open spec fn parse_u8(b: Seq<u8>) -> Option<(u8, Seq<u8>)> {
    if b.len() >= 1 {
        Some((b[0], b.skip(1)))
    } else {
        None
    }
}

pub open spec fn parse_u16(b: Seq<u8>) -> Option<(u16, Seq<u8>)> {
    if b.len() >= 2 {
        Some((spec_u16_from_le_bytes(b.take(2)), b.skip(2)))
    } else {
        None
    }
}

pub open spec fn parse_u32(b: Seq<u8>) -> Option<(u32, Seq<u8>)> {
    if b.len() >= 4 {
        Some((spec_u32_from_le_bytes(b.take(4)), b.skip(4)))
    } else {
        None
    }
}

pub open spec fn parse_u64(b: Seq<u8>) -> Option<(u64, Seq<u8>)> {
    if b.len() >= 8 {
        Some((spec_u64_from_le_bytes(b.take(8)), b.skip(8)))
    } else {
        None
    }
}

/// A string on the wire.
pub open spec fn ser_str(s: Seq<char>) -> Seq<u8> {
    spec_u32_to_le_bytes(encode_utf8(s).len() as u32) + encode_utf8(s)
}

/// The length of the string's encoding fits into four bytes.
pub open spec fn str_fits(s: Seq<char>) -> bool {
    encode_utf8(s).len() <= u32::MAX
}

pub open spec fn parse_str(b: Seq<u8>) -> Option<(Seq<char>, Seq<u8>)> {
    match parse_u32(b) {
        None => None,
        Some((n, rest)) => if rest.len() >= n && valid_utf8(rest.take(n as int)) {
            Some((decode_utf8(rest.take(n as int)), rest.skip(n as int)))
        } else {
            None
        },
    }
}

/// A tab entry on the wire: the window, the tab, the columns, the rows
/// and the title.
pub open spec fn ser_entry(e: TabEntryView) -> Seq<u8> {
    spec_u64_to_le_bytes(e.window_id) + spec_u64_to_le_bytes(e.tab_id) + spec_u16_to_le_bytes(
        e.size.cols,
    ) + spec_u16_to_le_bytes(e.size.rows) + ser_str(e.title)
}

pub open spec fn parse_entry(b: Seq<u8>) -> Option<(TabEntryView, Seq<u8>)> {
    match parse_u64(b) {
        None => None,
        Some((window_id, b1)) => match parse_u64(b1) {
            None => None,
            Some((tab_id, b2)) => match parse_u16(b2) {
                None => None,
                Some((cols, b3)) => match parse_u16(b3) {
                    None => None,
                    Some((rows, b4)) => match parse_str(b4) {
                        None => None,
                        Some((title, b5)) => Some(
                            (
                                TabEntryView {
                                    window_id,
                                    tab_id,
                                    size: TerminalSize { cols, rows },
                                    title,
                                },
                                b5,
                            ),
                        ),
                    },
                },
            },
        },
    }
}

/// Tab entries on the wire, one after the other.
pub open spec fn ser_entries(entries: Seq<TabEntryView>) -> Seq<u8>
    decreases entries.len(),
{
    if entries.len() == 0 {
        Seq::empty()
    } else {
        ser_entry(entries.first()) + ser_entries(entries.drop_first())
    }
}

pub open spec fn entries_fit(entries: Seq<TabEntryView>) -> bool {
    forall|i: int| 0 <= i < entries.len() ==> str_fits((#[trigger] entries[i]).title)
}

/// Reads `count` tab entries.
pub open spec fn parse_entries(b: Seq<u8>, count: nat) -> Option<(Seq<TabEntryView>, Seq<u8>)>
    decreases count,
{
    if count == 0 {
        Some((Seq::empty(), b))
    } else {
        match parse_entry(b) {
            None => None,
            Some((e, rest)) => match parse_entries(rest, (count - 1) as nat) {
                None => None,
                Some((more, left)) => Some((seq![e] + more, left)),
            },
        }
    }
}

/// Strings on the wire, one after the other.
pub open spec fn ser_words(words: Seq<Seq<char>>) -> Seq<u8>
    decreases words.len(),
{
    if words.len() == 0 {
        Seq::empty()
    } else {
        ser_str(words.first()) + ser_words(words.drop_first())
    }
}

pub open spec fn words_fit(words: Seq<Seq<char>>) -> bool {
    forall|i: int| 0 <= i < words.len() ==> str_fits(#[trigger] words[i])
}

/// Reads `count` strings.
pub open spec fn parse_words(b: Seq<u8>, count: nat) -> Option<(Seq<Seq<char>>, Seq<u8>)>
    decreases count,
{
    if count == 0 {
        Some((Seq::empty(), b))
    } else {
        match parse_str(b) {
            None => None,
            Some((w, rest)) => match parse_words(rest, (count - 1) as nat) {
                None => None,
                Some((more, left)) => Some((seq![w] + more, left)),
            },
        }
    }
}

/// Reading what was written gives the number back, with what followed it.
pub proof fn lemma_parse_numbers(rest: Seq<u8>)
    ensures
        forall|x: u16| parse_u16(#[trigger] spec_u16_to_le_bytes(x) + rest) == Some((x, rest)),
        forall|x: u32| parse_u32(#[trigger] spec_u32_to_le_bytes(x) + rest) == Some((x, rest)),
        forall|x: u64| parse_u64(#[trigger] spec_u64_to_le_bytes(x) + rest) == Some((x, rest)),
{
    lemma_auto_spec_u16_to_from_le_bytes();
    lemma_auto_spec_u32_to_from_le_bytes();
    lemma_auto_spec_u64_to_from_le_bytes();
    assert forall|x: u16| parse_u16(#[trigger] spec_u16_to_le_bytes(x) + rest) == Some((x, rest)) by {
        let b = spec_u16_to_le_bytes(x) + rest;
        assert(b.take(2) =~= spec_u16_to_le_bytes(x));
        assert(b.skip(2) =~= rest);
    }
    assert forall|x: u32| parse_u32(#[trigger] spec_u32_to_le_bytes(x) + rest) == Some((x, rest)) by {
        let b = spec_u32_to_le_bytes(x) + rest;
        assert(b.take(4) =~= spec_u32_to_le_bytes(x));
        assert(b.skip(4) =~= rest);
    }
    assert forall|x: u64| parse_u64(#[trigger] spec_u64_to_le_bytes(x) + rest) == Some((x, rest)) by {
        let b = spec_u64_to_le_bytes(x) + rest;
        assert(b.take(8) =~= spec_u64_to_le_bytes(x));
        assert(b.skip(8) =~= rest);
    }
}

/// What was read as a number is the number as it is written, followed by
/// what is left.
pub proof fn lemma_numbers_parsed(b: Seq<u8>)
    ensures
        parse_u16(b) matches Some((x, rest)) ==> b == spec_u16_to_le_bytes(x) + rest,
        parse_u32(b) matches Some((x, rest)) ==> b == spec_u32_to_le_bytes(x) + rest,
        parse_u64(b) matches Some((x, rest)) ==> b == spec_u64_to_le_bytes(x) + rest,
{
    lemma_auto_spec_u16_to_from_le_bytes();
    lemma_auto_spec_u32_to_from_le_bytes();
    lemma_auto_spec_u64_to_from_le_bytes();
    if b.len() >= 2 {
        assert(b =~= b.take(2) + b.skip(2));
    }
    if b.len() >= 4 {
        assert(b =~= b.take(4) + b.skip(4));
    }
    if b.len() >= 8 {
        assert(b =~= b.take(8) + b.skip(8));
    }
}

/// Reading a written string gives the string back.
pub proof fn lemma_parse_str(s: Seq<char>, rest: Seq<u8>)
    requires
        str_fits(s),
    ensures
        parse_str(ser_str(s) + rest) == Some((s, rest)),
{
    let body = encode_utf8(s);
    let n = body.len() as u32;
    let b1 = body + rest;
    let b = spec_u32_to_le_bytes(n) + b1;
    assert(parse_u32(b) == Some((n, b1))) by {
        lemma_parse_numbers(b1);
    }
    assert(b1.take(n as int) == body) by {
        assert(b1.take(n as int) =~= body);
    }
    assert(b1.skip(n as int) == rest) by {
        assert(b1.skip(n as int) =~= rest);
    }
    assert(valid_utf8(body)) by {
        encode_utf8_valid_utf8(s);
    }
    assert(decode_utf8(body) == s) by {
        encode_utf8_decode_utf8(s);
    }
    assert(ser_str(s) + rest == b) by {
        assert(ser_str(s) + rest =~= b);
    }
}

/// What was read as a string is that string as it is written, followed by
/// what is left.
pub proof fn lemma_str_parsed(b: Seq<u8>)
    ensures
        parse_str(b) matches Some((s, rest)) ==> str_fits(s) && b == ser_str(s) + rest,
{
    if let Some((s, rest)) = parse_str(b) {
        let (n, b1) = parse_u32(b).unwrap();
        let body = b1.take(n as int);
        assert(b == spec_u32_to_le_bytes(n) + b1) by {
            lemma_numbers_parsed(b);
        }
        assert(encode_utf8(s) == body) by {
            decode_utf8_encode_utf8(body);
        }
        assert(b1 == body + rest) by {
            assert(b1 =~= body + rest);
        }
        assert(body.len() == n);
        assert(b == ser_str(s) + rest) by {
            assert(b =~= ser_str(s) + rest);
        }
    }
}

/// Reading a written entry gives the entry back.
pub proof fn lemma_parse_entry(e: TabEntryView, rest: Seq<u8>)
    requires
        str_fits(e.title),
    ensures
        parse_entry(ser_entry(e) + rest) == Some((e, rest)),
{
    let b4 = ser_str(e.title) + rest;
    let b3 = spec_u16_to_le_bytes(e.size.rows) + b4;
    let b2 = spec_u16_to_le_bytes(e.size.cols) + b3;
    let b1 = spec_u64_to_le_bytes(e.tab_id) + b2;
    let b0 = spec_u64_to_le_bytes(e.window_id) + b1;
    assert(parse_str(b4) == Some((e.title, rest))) by {
        lemma_parse_str(e.title, rest);
    }
    assert(parse_u16(b3) == Some((e.size.rows, b4))) by {
        lemma_parse_numbers(b4);
    }
    assert(parse_u16(b2) == Some((e.size.cols, b3))) by {
        lemma_parse_numbers(b3);
    }
    assert(parse_u64(b1) == Some((e.tab_id, b2))) by {
        lemma_parse_numbers(b2);
    }
    assert(parse_u64(b0) == Some((e.window_id, b1))) by {
        lemma_parse_numbers(b1);
    }
    assert(ser_entry(e) + rest == b0) by {
        assert(ser_entry(e) + rest =~= b0);
    }
}

/// What was read as an entry is that entry as it is written, followed by
/// what is left.
pub proof fn lemma_entry_parsed(b: Seq<u8>)
    ensures
        parse_entry(b) matches Some((e, rest)) ==> str_fits(e.title) && b == ser_entry(e) + rest,
{
    if let Some((e, rest)) = parse_entry(b) {
        let (window_id, b1) = parse_u64(b).unwrap();
        let (tab_id, b2) = parse_u64(b1).unwrap();
        let (cols, b3) = parse_u16(b2).unwrap();
        let (rows, b4) = parse_u16(b3).unwrap();
        let (title, b5) = parse_str(b4).unwrap();
        assert(b == spec_u64_to_le_bytes(window_id) + b1) by {
            lemma_numbers_parsed(b);
        }
        assert(b1 == spec_u64_to_le_bytes(tab_id) + b2) by {
            lemma_numbers_parsed(b1);
        }
        assert(b2 == spec_u16_to_le_bytes(cols) + b3) by {
            lemma_numbers_parsed(b2);
        }
        assert(b3 == spec_u16_to_le_bytes(rows) + b4) by {
            lemma_numbers_parsed(b3);
        }
        assert(str_fits(title) && b4 == ser_str(title) + b5) by {
            lemma_str_parsed(b4);
        }
        assert(b == ser_entry(e) + rest) by {
            assert(b =~= ser_entry(e) + rest);
        }
    }
}

/// Reading written entries gives the entries back.
pub proof fn lemma_parse_entries(entries: Seq<TabEntryView>, rest: Seq<u8>)
    requires
        entries_fit(entries),
    ensures
        parse_entries(ser_entries(entries) + rest, entries.len()) == Some((entries, rest)),
    decreases entries.len(),
{
    if entries.len() == 0 {
        assert(ser_entries(entries) + rest =~= rest);
    } else {
        let tail = entries.drop_first();
        assert(entries_fit(tail)) by {
            assert forall|i: int| 0 <= i < tail.len() implies str_fits((#[trigger] tail[i]).title) by {
                assert(tail[i] == entries[i + 1]);
            }
        }
        lemma_parse_entries(tail, rest);
        lemma_parse_entry(entries.first(), ser_entries(tail) + rest);
        assert(ser_entries(entries) + rest =~= ser_entry(entries.first()) + (ser_entries(tail) + rest));
        assert(seq![entries.first()] + tail =~= entries);
    }
}

/// What was read as entries is those entries as they are written,
/// followed by what is left.
pub proof fn lemma_entries_parsed(b: Seq<u8>, count: nat)
    ensures
        parse_entries(b, count) matches Some((entries, rest)) ==> entries.len() == count
            && entries_fit(entries) && b == ser_entries(entries) + rest,
    decreases count,
{
    if let Some((entries, rest)) = parse_entries(b, count) {
        if count > 0 {
            let (e, b1) = parse_entry(b).unwrap();
            let (more, left) = parse_entries(b1, (count - 1) as nat).unwrap();
            lemma_entry_parsed(b);
            lemma_entries_parsed(b1, (count - 1) as nat);
            assert(entries.drop_first() =~= more);
            assert(b =~= ser_entries(entries) + rest);
            assert forall|i: int| 0 <= i < entries.len() implies str_fits((#[trigger] entries[i]).title) by {
                if i > 0 {
                    assert(entries[i] == more[i - 1]);
                }
            }
        } else {
            assert(b =~= ser_entries(entries) + rest);
        }
    }
}

/// Reading written strings gives the strings back.
pub proof fn lemma_parse_words(words: Seq<Seq<char>>, rest: Seq<u8>)
    requires
        words_fit(words),
    ensures
        parse_words(ser_words(words) + rest, words.len()) == Some((words, rest)),
    decreases words.len(),
{
    if words.len() == 0 {
        assert(ser_words(words) + rest =~= rest);
    } else {
        let tail = words.drop_first();
        assert(words_fit(tail)) by {
            assert forall|i: int| 0 <= i < tail.len() implies str_fits(#[trigger] tail[i]) by {
                assert(tail[i] == words[i + 1]);
            }
        }
        lemma_parse_words(tail, rest);
        lemma_parse_str(words.first(), ser_words(tail) + rest);
        assert(ser_words(words) + rest =~= ser_str(words.first()) + (ser_words(tail) + rest));
        assert(seq![words.first()] + tail =~= words);
    }
}

/// What was read as strings is those strings as they are written,
/// followed by what is left.
pub proof fn lemma_words_parsed(b: Seq<u8>, count: nat)
    ensures
        parse_words(b, count) matches Some((words, rest)) ==> words.len() == count && words_fit(words)
            && b == ser_words(words) + rest,
    decreases count,
{
    if let Some((words, rest)) = parse_words(b, count) {
        if count > 0 {
            let (w, b1) = parse_str(b).unwrap();
            let (more, left) = parse_words(b1, (count - 1) as nat).unwrap();
            lemma_str_parsed(b);
            lemma_words_parsed(b1, (count - 1) as nat);
            assert(words.drop_first() =~= more);
            assert(b =~= ser_words(words) + rest);
            assert forall|i: int| 0 <= i < words.len() implies str_fits(#[trigger] words[i]) by {
                if i > 0 {
                    assert(words[i] == more[i - 1]);
                }
            }
        } else {
            assert(b =~= ser_words(words) + rest);
        }
    }
}

/// The input from position `pos` on.
pub open spec fn from(bytes: &[u8], pos: usize) -> Seq<u8> {
    bytes@.skip(pos as int)
}

pub(crate) fn put_u16(out: &mut Vec<u8>, x: u16)
    ensures
        final(out)@ == old(out)@ + spec_u16_to_le_bytes(x),
{
    let mut b = u16_to_le_bytes(x);
    out.append(&mut b);
}

pub(crate) fn put_u32(out: &mut Vec<u8>, x: u32)
    ensures
        final(out)@ == old(out)@ + spec_u32_to_le_bytes(x),
{
    let mut b = u32_to_le_bytes(x);
    out.append(&mut b);
}

pub(crate) fn put_u64(out: &mut Vec<u8>, x: u64)
    ensures
        final(out)@ == old(out)@ + spec_u64_to_le_bytes(x),
{
    let mut b = u64_to_le_bytes(x);
    out.append(&mut b);
}

/// Writes a string, if the length of its encoding fits into four bytes.
pub(crate) fn put_str(out: &mut Vec<u8>, s: &str) -> (ok: bool)
    ensures
        ok == str_fits(s@),
        final(out)@ == if ok {
            old(out)@ + ser_str(s@)
        } else {
            old(out)@
        },
{
    let bytes = s.as_bytes();
    if bytes.len() > u32::MAX as usize {
        return false;
    }
    put_u32(out, bytes.len() as u32);
    let mut body = slice_to_vec(bytes);
    out.append(&mut body);
    proof {
        assert(out@ =~= old(out)@ + ser_str(s@));
    }
    true
}

/// Writes a tab entry, if its title fits.
pub(crate) fn put_entry(out: &mut Vec<u8>, e: &TabEntry) -> (ok: bool)
    ensures
        ok == str_fits(e@.title),
        final(out)@ == if ok {
            old(out)@ + ser_entry(e@)
        } else {
            old(out)@
        },
{
    if e.title.as_str().as_bytes().len() > u32::MAX as usize {
        return false;
    }
    put_u64(out, e.window_id);
    put_u64(out, e.tab_id);
    put_u16(out, e.size.cols);
    put_u16(out, e.size.rows);
    let ok = put_str(out, e.title.as_str());
    proof {
        assert(out@ =~= old(out)@ + ser_entry(e@));
    }
    true
}

pub(crate) fn read_u8(bytes: &[u8], pos: usize) -> (r: Option<(u8, usize)>)
    requires
        pos <= bytes.len(),
    ensures
        match r {
            Some((x, next)) => next <= bytes.len() && parse_u8(from(bytes, pos)) == Some(
                (x, from(bytes, next)),
            ),
            None => parse_u8(from(bytes, pos)) is None,
        },
{
    if bytes.len() - pos < 1 {
        None
    } else {
        proof {
            assert(from(bytes, pos).skip(1) =~= from(bytes, (pos + 1) as usize));
        }
        Some((bytes[pos], pos + 1))
    }
}

pub(crate) fn read_u16(bytes: &[u8], pos: usize) -> (r: Option<(u16, usize)>)
    requires
        pos <= bytes.len(),
    ensures
        match r {
            Some((x, next)) => next <= bytes.len() && parse_u16(from(bytes, pos)) == Some(
                (x, from(bytes, next)),
            ),
            None => parse_u16(from(bytes, pos)) is None,
        },
{
    if bytes.len() - pos < 2 {
        None
    } else {
        let x = u16_from_le_bytes(slice_subrange(bytes, pos, pos + 2));
        proof {
            assert(from(bytes, pos).take(2) =~= bytes@.subrange(pos as int, pos + 2));
            assert(from(bytes, pos).skip(2) =~= from(bytes, (pos + 2) as usize));
        }
        Some((x, pos + 2))
    }
}

pub(crate) fn read_u32(bytes: &[u8], pos: usize) -> (r: Option<(u32, usize)>)
    requires
        pos <= bytes.len(),
    ensures
        match r {
            Some((x, next)) => next <= bytes.len() && parse_u32(from(bytes, pos)) == Some(
                (x, from(bytes, next)),
            ),
            None => parse_u32(from(bytes, pos)) is None,
        },
{
    if bytes.len() - pos < 4 {
        None
    } else {
        let x = u32_from_le_bytes(slice_subrange(bytes, pos, pos + 4));
        proof {
            assert(from(bytes, pos).take(4) =~= bytes@.subrange(pos as int, pos + 4));
            assert(from(bytes, pos).skip(4) =~= from(bytes, (pos + 4) as usize));
        }
        Some((x, pos + 4))
    }
}

pub(crate) fn read_u64(bytes: &[u8], pos: usize) -> (r: Option<(u64, usize)>)
    requires
        pos <= bytes.len(),
    ensures
        match r {
            Some((x, next)) => next <= bytes.len() && parse_u64(from(bytes, pos)) == Some(
                (x, from(bytes, next)),
            ),
            None => parse_u64(from(bytes, pos)) is None,
        },
{
    if bytes.len() - pos < 8 {
        None
    } else {
        let x = u64_from_le_bytes(slice_subrange(bytes, pos, pos + 8));
        proof {
            assert(from(bytes, pos).take(8) =~= bytes@.subrange(pos as int, pos + 8));
            assert(from(bytes, pos).skip(8) =~= from(bytes, (pos + 8) as usize));
        }
        Some((x, pos + 8))
    }
}

/// Reads a string: its length, then as many bytes, which have to be valid
/// UTF-8.
pub(crate) fn read_str(bytes: &[u8], pos: usize) -> (r: Option<(String, usize)>)
    requires
        pos <= bytes.len(),
    ensures
        match r {
            Some((s, next)) => next <= bytes.len() && parse_str(from(bytes, pos)) == Some(
                (s@, from(bytes, next)),
            ),
            None => parse_str(from(bytes, pos)) is None,
        },
{
    let (n, start) = match read_u32(bytes, pos) {
        None => { return None; },
        Some(r) => r,
    };
    if bytes.len() - start < n as usize {
        return None;
    }
    let end = start + n as usize;
    let body = slice_to_vec(slice_subrange(bytes, start, end));
    proof {
        assert(from(bytes, start).take(n as int) =~= bytes@.subrange(start as int, end as int));
        assert(from(bytes, start).skip(n as int) =~= from(bytes, end));
    }
    match String::from_utf8(body) {
        Ok(s) => Some((s, end)),
        Err(_) => None,
    }
}

/// Reads a tab entry.
pub(crate) fn read_entry(bytes: &[u8], pos: usize) -> (r: Option<(TabEntry, usize)>)
    requires
        pos <= bytes.len(),
    ensures
        match r {
            Some((e, next)) => next <= bytes.len() && parse_entry(from(bytes, pos)) == Some(
                (e@, from(bytes, next)),
            ),
            None => parse_entry(from(bytes, pos)) is None,
        },
{
    let (window_id, p1) = match read_u64(bytes, pos) {
        None => { return None; },
        Some(r) => r,
    };
    let (tab_id, p2) = match read_u64(bytes, p1) {
        None => { return None; },
        Some(r) => r,
    };
    let (cols, p3) = match read_u16(bytes, p2) {
        None => { return None; },
        Some(r) => r,
    };
    let (rows, p4) = match read_u16(bytes, p3) {
        None => { return None; },
        Some(r) => r,
    };
    let (title, p5) = match read_str(bytes, p4) {
        None => { return None; },
        Some(r) => r,
    };
    Some((TabEntry { window_id, tab_id, size: TerminalSize { cols, rows }, title }, p5))
}

/// Reads `count` tab entries.
pub(crate) fn read_entries(bytes: &[u8], pos: usize, count: u32) -> (r: Option<(Vec<TabEntry>, usize)>)
    requires
        pos <= bytes.len(),
    ensures
        match r {
            Some((entries, next)) => next <= bytes.len() && parse_entries(from(bytes, pos), count as nat)
                == Some((entry_views(entries@), from(bytes, next))),
            None => parse_entries(from(bytes, pos), count as nat) is None,
        },
{
    let mut entries: Vec<TabEntry> = Vec::new();
    let mut at: usize = pos;
    let mut i: u32 = 0;
    while i < count
        invariant
            i <= count,
            at <= bytes.len(),
            parse_entries(from(bytes, pos), count as nat) == match parse_entries(
                from(bytes, at),
                (count - i) as nat,
            ) {
                None => None,
                Some((more, left)) => Some((entry_views(entries@) + more, left)),
            },
        decreases count - i,
    {
        match read_entry(bytes, at) {
            None => { return None; },
            Some((e, next)) => {
                proof {
                    let rest = parse_entries(from(bytes, next), (count - i - 1) as nat);
                    if let Some((more, left)) = rest {
                        assert(entry_views(entries@) + (seq![e@] + more) =~= entry_views(
                            entries@.push(e),
                        ) + more);
                    }
                }
                entries.push(e);
                at = next;
            },
        }
        i += 1;
    }
    proof {
        assert(entry_views(entries@) + Seq::<TabEntryView>::empty() =~= entry_views(entries@));
    }
    Some((entries, at))
}

/// Writes tab entries, if every title fits.  Where one does not, the
/// output is left as it was.
pub(crate) fn put_entries(out: &mut Vec<u8>, entries: &Vec<TabEntry>) -> (ok: bool)
    ensures
        ok == entries_fit(entry_views(entries@)),
        final(out)@ == if ok {
            old(out)@ + ser_entries(entry_views(entries@))
        } else {
            old(out)@
        },
{
    let ghost all = entry_views(entries@);
    let mut body: Vec<u8> = Vec::new();
    let mut i: usize = 0;
    proof {
        assert(all.take(0) =~= Seq::empty());
    }
    while i < entries.len()
        invariant
            i <= entries.len(),
            all == entry_views(entries@),
            entries_fit(all.take(i as int)),
            body@ == ser_entries(all.take(i as int)),
            out@ == old(out)@,
        decreases entries.len() - i,
    {
        let ok = put_entry(&mut body, &entries[i]);
        if !ok {
            proof {
                assert(!str_fits(all[i as int].title));
            }
            return false;
        }
        proof {
            lemma_ser_entries_push(all.take(i as int), all[i as int]);
            assert(all.take(i + 1) =~= all.take(i as int).push(all[i as int]));
            assert forall|k: int| 0 <= k < i + 1 implies str_fits((#[trigger] all.take(i + 1)[k]).title) by {
                if k < i {
                    assert(all.take(i as int)[k] == all.take(i + 1)[k]);
                }
            }
        }
        i += 1;
    }
    proof {
        assert(all.take(i as int) =~= all);
    }
    out.append(&mut body);
    true
}

/// Writing one more entry behind others.
pub proof fn lemma_ser_entries_push(entries: Seq<TabEntryView>, e: TabEntryView)
    ensures
        ser_entries(entries.push(e)) == ser_entries(entries) + ser_entry(e),
    decreases entries.len(),
{
    let all = entries.push(e);
    if entries.len() == 0 {
        assert(all.drop_first() =~= Seq::empty());
        assert(ser_entries(all.drop_first()) =~= Seq::empty());
        assert(ser_entries(all) =~= ser_entries(entries) + ser_entry(e));
    } else {
        lemma_ser_entries_push(entries.drop_first(), e);
        assert(all.drop_first() =~= entries.drop_first().push(e));
        assert(ser_entries(all) =~= ser_entries(entries) + ser_entry(e));
    }
}

/// Writing one more string behind others.
pub proof fn lemma_ser_words_push(words: Seq<Seq<char>>, w: Seq<char>)
    ensures
        ser_words(words.push(w)) == ser_words(words) + ser_str(w),
    decreases words.len(),
{
    let all = words.push(w);
    if words.len() == 0 {
        assert(all.drop_first() =~= Seq::empty());
        assert(ser_words(all.drop_first()) =~= Seq::empty());
        assert(ser_words(all) =~= ser_words(words) + ser_str(w));
    } else {
        lemma_ser_words_push(words.drop_first(), w);
        assert(all.drop_first() =~= words.drop_first().push(w));
        assert(ser_words(all) =~= ser_words(words) + ser_str(w));
    }
}

/// Writes strings, if each of them fits.  Where one does not, the output
/// is left as it was.
pub(crate) fn put_words(out: &mut Vec<u8>, words: &Vec<String>) -> (ok: bool)
    ensures
        ok == words_fit(word_views(words@)),
        final(out)@ == if ok {
            old(out)@ + ser_words(word_views(words@))
        } else {
            old(out)@
        },
{
    let ghost all = word_views(words@);
    let mut body: Vec<u8> = Vec::new();
    let mut i: usize = 0;
    proof {
        assert(all.take(0) =~= Seq::empty());
    }
    while i < words.len()
        invariant
            i <= words.len(),
            all == word_views(words@),
            words_fit(all.take(i as int)),
            body@ == ser_words(all.take(i as int)),
            out@ == old(out)@,
        decreases words.len() - i,
    {
        let ok = put_str(&mut body, words[i].as_str());
        if !ok {
            proof {
                assert(!str_fits(all[i as int]));
            }
            return false;
        }
        proof {
            lemma_ser_words_push(all.take(i as int), all[i as int]);
            assert(all.take(i + 1) =~= all.take(i as int).push(all[i as int]));
            assert forall|k: int| 0 <= k < i + 1 implies str_fits(#[trigger] all.take(i + 1)[k]) by {
                if k < i {
                    assert(all.take(i as int)[k] == all.take(i + 1)[k]);
                }
            }
        }
        i += 1;
    }
    proof {
        assert(all.take(i as int) =~= all);
    }
    out.append(&mut body);
    true
}

/// Reads `count` strings.
pub(crate) fn read_words(bytes: &[u8], pos: usize, count: u32) -> (r: Option<(Vec<String>, usize)>)
    requires
        pos <= bytes.len(),
    ensures
        match r {
            Some((words, next)) => next <= bytes.len() && parse_words(from(bytes, pos), count as nat)
                == Some((word_views(words@), from(bytes, next))),
            None => parse_words(from(bytes, pos), count as nat) is None,
        },
{
    let mut words: Vec<String> = Vec::new();
    let mut at: usize = pos;
    let mut i: u32 = 0;
    while i < count
        invariant
            i <= count,
            at <= bytes.len(),
            parse_words(from(bytes, pos), count as nat) == match parse_words(
                from(bytes, at),
                (count - i) as nat,
            ) {
                None => None,
                Some((more, left)) => Some((word_views(words@) + more, left)),
            },
        decreases count - i,
    {
        match read_str(bytes, at) {
            None => { return None; },
            Some((w, next)) => {
                proof {
                    let rest = parse_words(from(bytes, next), (count - i - 1) as nat);
                    if let Some((more, left)) = rest {
                        assert(word_views(words@) + (seq![w@] + more) =~= word_views(words@.push(w))
                            + more);
                    }
                }
                words.push(w);
                at = next;
            },
        }
        i += 1;
    }
    proof {
        assert(word_views(words@) + Seq::<Seq<char>>::empty() =~= word_views(words@));
    }
    Some((words, at))
}

} // verus!
