use vstd::prelude::*;

verus! {

/// The line without the carriage return that ends it, if one does.
pub open spec fn strip_cr(line: Seq<u8>) -> Seq<u8> {
    if line.len() > 0 && line.last() == 13u8 {
        line.drop_last()
    } else {
        line
    }
}

/// The lines of `b`, where `cur` holds the start of the line being read:
/// a newline ends a line, a last line need not end with one, and a line
/// ended by a newline loses the carriage return just before it.
pub open spec fn lines_from(b: Seq<u8>, cur: Seq<u8>) -> Seq<Seq<u8>>
    decreases b.len(),
{
    if b.len() == 0 {
        if cur.len() == 0 {
            Seq::empty()
        } else {
            seq![cur]
        }
    } else if b[0] == 10u8 {
        seq![strip_cr(cur)] + lines_from(b.drop_first(), Seq::empty())
    } else {
        lines_from(b.drop_first(), cur.push(b[0]))
    }
}

/// The lines of the text `b`.
pub open spec fn lines(b: Seq<u8>) -> Seq<Seq<u8>> {
    lines_from(b, Seq::empty())
}

/// The text that UTF-8 bytes stand for, or `None` where they are not valid
/// UTF-8.
pub uninterp spec fn utf8_decoded(b: Seq<u8>) -> Option<Seq<char>>;

/// Relies on `std::str::from_utf8`: it accepts the valid UTF-8 byte sequences
/// only, and the text it gives depends on the bytes alone.
#[verifier::external_body]
fn decode_utf8(b: &[u8]) -> (r: Option<String>)
    ensures
        match r {
            Option::Some(s) => utf8_decoded(b@) == Option::Some(s@),
            Option::None => utf8_decoded(b@) is None,
        },
{
    match std::str::from_utf8(b) {
        Ok(s) => Option::Some(s.to_string()),
        Err(_) => Option::None,
    }
}

pub open spec fn byte_views(ls: Seq<Vec<u8>>) -> Seq<Seq<u8>> {
    ls.map_values(|l: Vec<u8>| l@)
}

fn strip_cr_exec(line: Vec<u8>) -> (r: Vec<u8>)
    ensures
        r@ == strip_cr(line@),
{
    let mut line = line;
    let n = line.len();
    if n > 0 && line[n - 1] == 13u8 {
        line.pop();
    }
    line
}

/// Splits a text into its lines, as `lines` states.
pub fn split_lines(b: &[u8]) -> (r: Vec<Vec<u8>>)
    ensures
        byte_views(r@) == lines(b@),
{
    let mut out: Vec<Vec<u8>> = Vec::new();
    let mut cur: Vec<u8> = Vec::new();
    let mut i: usize = 0;
    assert(b@.skip(0) =~= b@);
    assert(cur@ =~= Seq::<u8>::empty());
    assert(byte_views(out@) + lines(b@) =~= lines(b@));
    while i < b.len()
        invariant
            i <= b@.len(),
            byte_views(out@) + lines_from(b@.skip(i as int), cur@) == lines(b@),
        decreases b@.len() - i,
    {
        let ghost rest = b@.skip(i as int);
        let ghost before = byte_views(out@);
        let ghost c0 = cur@;
        assert(rest.drop_first() =~= b@.skip(i + 1));
        assert(rest[0] == b@[i as int]);
        if b[i] == 10u8 {
            let done = strip_cr_exec(cur);
            out.push(done);
            cur = Vec::new();
            assert(byte_views(out@) =~= before.push(strip_cr(c0)));
            assert(before + lines_from(rest, c0) =~= byte_views(out@) + lines_from(
                b@.skip(i + 1),
                cur@,
            ));
        } else {
            cur.push(b[i]);
        }
        i += 1;
    }
    assert(b@.skip(i as int) =~= Seq::<u8>::empty());
    let ghost before = byte_views(out@);
    if cur.len() > 0 {
        let ghost c0 = cur@;
        out.push(cur);
        assert(byte_views(out@) =~= before.push(c0));
        assert(before + seq![c0] =~= before.push(c0));
    } else {
        assert(before + Seq::<Seq<u8>>::empty() =~= before);
    }
    out
}

/// The texts of the lines that are valid UTF-8, in their order.
pub open spec fn decoded_lines(ls: Seq<Seq<u8>>) -> Seq<Seq<char>>
    decreases ls.len(),
{
    if ls.len() == 0 {
        Seq::empty()
    } else {
        let prev = decoded_lines(ls.drop_last());
        match utf8_decoded(ls.last()) {
            Option::Some(t) => prev.push(t),
            Option::None => prev,
        }
    }
}

/// The number of lines that are not valid UTF-8.
pub open spec fn undecodable(ls: Seq<Seq<u8>>) -> nat
    decreases ls.len(),
{
    if ls.len() == 0 {
        0
    } else {
        undecodable(ls.drop_last()) + if utf8_decoded(ls.last()) is None {
            1nat
        } else {
            0nat
        }
    }
}

pub open spec fn texts(ws: Seq<String>) -> Seq<Seq<char>> {
    ws.map_values(|w: String| w@)
}

/// Reads a word list, one word per line. A line that is not valid UTF-8 is
/// skipped and counted; the others are kept in their order.
pub fn load_dictionary(b: &[u8]) -> (r: (Vec<String>, usize))
    ensures
        texts(r.0@) == decoded_lines(lines(b@)),
        r.1 == undecodable(lines(b@)),
{
    let ls = split_lines(b);
    let ghost lv = byte_views(ls@);
    let mut words: Vec<String> = Vec::new();
    let mut skipped: usize = 0;
    let mut i: usize = 0;
    while i < ls.len()
        invariant
            lv == byte_views(ls@),
            lv == lines(b@),
            i <= ls@.len(),
            texts(words@) == decoded_lines(lv.take(i as int)),
            skipped == undecodable(lv.take(i as int)),
            skipped <= i,
        decreases ls@.len() - i,
    {
        let ghost before = words@;
        assert(lv.take(i + 1).drop_last() =~= lv.take(i as int));
        assert(lv.take(i + 1).last() == ls@[i as int]@);
        match decode_utf8(ls[i].as_slice()) {
            Option::Some(w) => {
                words.push(w);
                assert(texts(words@) =~= texts(before).push(words@.last()@));
            },
            Option::None => {
                skipped += 1;
            },
        }
        i += 1;
    }
    assert(lv.take(i as int) =~= lv);
    (words, skipped)
}

} // verus!
