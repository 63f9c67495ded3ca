//! The on-disk text format: one record per line, fields joined by the
//! delimiter, empty lines ignored. Checkpoint and journal files share it.
use vstd::prelude::*;

use crate::entry::{lemma_five_fields, serialize, FiveWsEntry, DELIMITER};
use crate::text::{chars_of, push_char};

verus! {

/// The line terminator of the file format.
pub const NEWLINE: char = '\n';

/// The pieces of `s` between occurrences of `d`, in order; there is always at
/// least one piece, and `k` occurrences give `k + 1` pieces.
pub open spec fn split(s: Seq<char>, d: char) -> Seq<Seq<char>>
    decreases s.len(),
{
    if s.len() == 0 {
        seq![Seq::empty()]
    } else {
        let rest = split(s.drop_last(), d);
        if s.last() == d {
            rest.push(Seq::empty())
        } else {
            rest.update(rest.len() - 1, rest.last().push(s.last()))
        }
    }
}

/// The views of a list of strings.
pub open spec fn views_of(v: Seq<String>) -> Seq<Seq<char>> {
    v.map_values(|p: String| p@)
}

/// The models of a list of records.
pub open spec fn records_view(v: Seq<FiveWsEntry>) -> Seq<Seq<Seq<char>>> {
    v.map_values(|e: FiveWsEntry| e@)
}

/// A line read back as a record: its pieces, when there are exactly five.
pub open spec fn parse_line(l: Seq<char>) -> Option<Seq<Seq<char>>> {
    let parts = split(l, DELIMITER);
    if parts.len() == 5 {
        Some(parts)
    } else {
        None
    }
}

/// Lines read back in order, skipping empty ones; `None` when any other line
/// is not a record.
pub open spec fn parse_lines(ls: Seq<Seq<char>>) -> Option<Seq<Seq<Seq<char>>>>
    decreases ls.len(),
{
    if ls.len() == 0 {
        Some(Seq::empty())
    } else {
        match parse_lines(ls.drop_last()) {
            None => None,
            Some(rs) => if ls.last().len() == 0 {
                Some(rs)
            } else {
                match parse_line(ls.last()) {
                    None => None,
                    Some(r) => Some(rs.push(r)),
                }
            },
        }
    }
}

/// A whole file read back as records.
pub open spec fn parse_text(t: Seq<char>) -> Option<Seq<Seq<Seq<char>>>> {
    parse_lines(split(t, NEWLINE))
}

/// The file form of a list of records: each one's line followed by a newline.
pub open spec fn encode(rs: Seq<Seq<Seq<char>>>) -> Seq<char>
    decreases rs.len(),
{
    if rs.len() == 0 {
        Seq::empty()
    } else {
        encode(rs.drop_last()) + serialize(rs.last()) + seq![NEWLINE]
    }
}

/// A field that the format can carry: it holds neither delimiter nor newline.
pub open spec fn field_ok(f: Seq<char>) -> bool {
    !f.contains(DELIMITER) && !f.contains(NEWLINE)
}

/// A record that the format can carry.
pub open spec fn record_ok(r: Seq<Seq<char>>) -> bool {
    r.len() == 5 && forall|i: int| 0 <= i < 5 ==> field_ok(#[trigger] r[i])
}

/// Records that the format can carry, all of them.
pub open spec fn records_ok(rs: Seq<Seq<Seq<char>>>) -> bool {
    forall|i: int| 0 <= i < rs.len() ==> record_ok(#[trigger] rs[i])
}

fn text_fits(s: &str) -> (r: bool)
    ensures
        r == field_ok(s@),
{
    let cs = chars_of(s);
    let mut i: usize = 0;
    while i < cs.len()
        invariant
            i <= cs@.len(),
            cs@ == s@,
            forall|k: int| 0 <= k < i ==> cs@[k] != DELIMITER && cs@[k] != NEWLINE,
        decreases cs@.len() - i,
    {
        if cs[i] == DELIMITER || cs[i] == NEWLINE {
            assert(s@[i as int] == cs@[i as int]);
            return false;
        }
        i = i + 1;
    }
    true
}

/// Whether the format can carry `e`: no field holds the delimiter or a newline.
pub fn fits_format(e: &FiveWsEntry) -> (r: bool)
    ensures
        r == record_ok(e@),
{
    proof {
        lemma_five_fields(e);
    }
    let ok = text_fits(e.who()) && text_fits(e.what()) && text_fits(e.when()) && text_fits(
        e.where_(),
    ) && text_fits(e.why());
    assert(ok ==> forall|i: int| 0 <= i < 5 ==> field_ok(#[trigger] e@[i])) by {
        if ok {
            assert forall|i: int| 0 <= i < 5 implies field_ok(#[trigger] e@[i]) by {
                if i == 0 {
                } else if i == 1 {
                } else if i == 2 {
                } else if i == 3 {
                } else {
                }
            }
        }
    }
    ok
}

/// Cuts `s` at every `d`.
pub fn split_text(s: &str, d: char) -> (r: Vec<String>)
    ensures
        views_of(r@) == split(s@, d),
{
    let cs = chars_of(s);
    let mut parts: Vec<String> = Vec::new();
    let mut cur = String::new();
    let mut i: usize = 0;
    assert(s@.take(0) =~= Seq::<char>::empty());
    assert(views_of(parts@).push(cur@) =~= seq![Seq::<char>::empty()]);
    while i < cs.len()
        invariant
            i <= cs@.len(),
            cs@ == s@,
            split(s@.take(i as int), d) == views_of(parts@).push(cur@),
        decreases cs@.len() - i,
    {
        let c = cs[i];
        let ghost prev_parts = views_of(parts@);
        let ghost prev_cur = cur@;
        if c == d {
            parts.push(cur);
            cur = String::new();
            assert(views_of(parts@) =~= prev_parts.push(prev_cur));
        } else {
            push_char(&mut cur, c);
        }
        i = i + 1;
        assert(s@.take(i as int).drop_last() =~= s@.take(i - 1));
        assert(split(s@.take(i as int), d) =~= views_of(parts@).push(cur@));
    }
    let ghost prev_parts = views_of(parts@);
    parts.push(cur);
    assert(views_of(parts@) =~= prev_parts.push(cur@));
    assert(s@.take(i as int) =~= s@);
    parts
}

/// Reads one line back as a record; `None` unless it has exactly five fields.
pub fn deserialize(line: &str) -> (r: Option<FiveWsEntry>)
    ensures
        match r {
            Some(e) => parse_line(line@) == Some(e@),
            None => parse_line(line@) is None,
        },
{
    let parts = split_text(line, DELIMITER);
    if parts.len() == 5 {
        let e = FiveWsEntry::new(
            parts[0].as_str(),
            parts[1].as_str(),
            parts[2].as_str(),
            parts[3].as_str(),
            parts[4].as_str(),
        );
        assert(e@ =~= split(line@, DELIMITER));
        Some(e)
    } else {
        None
    }
}

proof fn lemma_parse_none_extends(ls: Seq<Seq<char>>, k: int)
    requires
        0 <= k <= ls.len(),
        parse_lines(ls.take(k)) is None,
    ensures
        parse_lines(ls) is None,
    decreases ls.len() - k,
{
    if k < ls.len() {
        assert(ls.take(k + 1).drop_last() =~= ls.take(k));
        lemma_parse_none_extends(ls, k + 1);
    } else {
        assert(ls.take(k) =~= ls);
    }
}

/// Reads a whole file back as records, in file order, skipping empty lines;
/// `None` when any other line is not a record.
pub fn parse_records(text: &str) -> (r: Option<Vec<FiveWsEntry>>)
    ensures
        match r {
            Some(v) => parse_text(text@) == Some(records_view(v@)),
            None => parse_text(text@) is None,
        },
{
    let lines = split_text(text, NEWLINE);
    let ghost ls = views_of(lines@);
    let mut out: Vec<FiveWsEntry> = Vec::new();
    let mut i: usize = 0;
    assert(ls.take(0) =~= Seq::<Seq<char>>::empty());
    assert(records_view(out@) =~= Seq::<Seq<Seq<char>>>::empty());
    while i < lines.len()
        invariant
            i <= lines@.len(),
            ls == views_of(lines@),
            ls == split(text@, NEWLINE),
            parse_lines(ls.take(i as int)) == Some(records_view(out@)),
        decreases lines@.len() - i,
    {
        let line = lines[i].as_str();
        assert(ls.take(i + 1).drop_last() =~= ls.take(i as int));
        assert(ls.take(i + 1).last() == line@);
        if line.is_empty() {
        } else {
            match deserialize(line) {
                None => {
                    proof {
                        lemma_parse_none_extends(ls, i + 1);
                    }
                    return None;
                },
                Some(e) => {
                    let ghost prev = records_view(out@);
                    out.push(e);
                    assert(records_view(out@) =~= prev.push(e@));
                },
            }
        }
        i = i + 1;
    }
    assert(ls.take(i as int) =~= ls);
    Some(out)
}

/// The file form of `rs`: one line per record, in order.
pub fn encode_records(rs: &Vec<FiveWsEntry>) -> (r: String)
    ensures
        r@ == encode(records_view(rs@)),
{
    let ghost all = records_view(rs@);
    let mut s = String::new();
    let mut i: usize = 0;
    assert(all.take(0) =~= Seq::<Seq<Seq<char>>>::empty());
    while i < rs.len()
        invariant
            i <= rs@.len(),
            all == records_view(rs@),
            s@ == encode(all.take(i as int)),
        decreases rs@.len() - i,
    {
        let line = rs[i].to_string();
        s.append(line.as_str());
        push_char(&mut s, NEWLINE);
        assert(all.take(i + 1).drop_last() =~= all.take(i as int));
        i = i + 1;
    }
    assert(all.take(i as int) =~= all);
    s
}

/// The journal line of one record: its text form and a newline.
pub fn journal_line(e: &FiveWsEntry) -> (r: String)
    ensures
        r@ == serialize(e@) + seq![NEWLINE],
{
    let mut s = e.to_string();
    push_char(&mut s, NEWLINE);
    s
}

/// Splitting always yields at least one piece.
pub proof fn lemma_split_len(s: Seq<char>, d: char)
    ensures
        split(s, d).len() >= 1,
    decreases s.len(),
{
    if s.len() > 0 {
        lemma_split_len(s.drop_last(), d);
    }
}

/// A text without the delimiter is a single piece.
pub proof fn lemma_split_free(s: Seq<char>, d: char)
    requires
        !s.contains(d),
    ensures
        split(s, d) == seq![s],
    decreases s.len(),
{
    if s.len() > 0 {
        let t = s.drop_last();
        assert(!t.contains(d)) by {
            if t.contains(d) {
                let k = choose|k: int| 0 <= k < t.len() && t[k] == d;
                assert(s[k] == d);
            }
        }
        lemma_split_free(t, d);
        assert(s.last() != d) by {
            assert(s[s.len() - 1] == s.last());
        }
        assert(t.push(s.last()) =~= s);
        assert(split(s, d) =~= seq![s]);
    } else {
        assert(s =~= Seq::<char>::empty());
    }
}

/// Splitting around one delimiter splits the two sides apart.
pub proof fn lemma_split_concat(x: Seq<char>, y: Seq<char>, d: char)
    ensures
        split(x + seq![d] + y, d) == split(x, d) + split(y, d),
    decreases y.len(),
{
    let z = x + seq![d] + y;
    if y.len() == 0 {
        assert(z.drop_last() =~= x);
        assert(split(z, d) =~= split(x, d) + split(y, d));
    } else {
        let y0 = y.drop_last();
        assert(z.drop_last() =~= x + seq![d] + y0);
        assert(z.last() == y.last());
        lemma_split_concat(x, y0, d);
        lemma_split_len(y0, d);
        let a = split(x, d);
        let b = split(y0, d);
        if y.last() == d {
            assert(split(z, d) =~= a + split(y, d));
        } else {
            let v = b.last().push(y.last());
            assert((a + b).last() == b.last());
            assert((a + b).update(a.len() + b.len() - 1, v) =~= a + b.update(b.len() - 1, v));
        }
    }
}

/// After a text that ends with the delimiter, the pieces of what follows are
/// appended in place of the trailing empty piece.
pub proof fn lemma_split_after_terminator(e: Seq<char>, y: Seq<char>, d: char)
    requires
        e.len() > 0,
        e.last() == d,
    ensures
        split(e + y, d) == split(e, d).drop_last() + split(y, d),
{
    let x = e.drop_last();
    assert(x + seq![d] =~= e);
    assert(x + seq![d] + y =~= e + y);
    assert(x + seq![d] + Seq::<char>::empty() =~= e);
    lemma_split_concat(x, y, d);
    lemma_split_concat(x, Seq::<char>::empty(), d);
    assert(split(e, d).drop_last() =~= split(x, d));
}

/// The text form of a record holds a character only if the delimiter is that
/// character or a field holds it.
pub proof fn lemma_serialize_lacks(r: Seq<Seq<char>>, c: char)
    requires
        r.len() == 5,
        c != DELIMITER,
        forall|i: int| 0 <= i < 5 ==> !(#[trigger] r[i]).contains(c),
    ensures
        !serialize(r).contains(c),
{
    let s = serialize(r);
    assert forall|k: int| 0 <= k < s.len() implies s[k] != c by {
        assert(!r[0].contains(c));
        assert(!r[1].contains(c));
        assert(!r[2].contains(c));
        assert(!r[3].contains(c));
        assert(!r[4].contains(c));
    }
}

/// Reading back the text form of a record whose fields hold no delimiter
/// gives the same record.
pub proof fn lemma_round_trip(r: Seq<Seq<char>>)
    requires
        r.len() == 5,
        forall|i: int| 0 <= i < 5 ==> !(#[trigger] r[i]).contains(DELIMITER),
    ensures
        parse_line(serialize(r)) == Some(r),
{
    let d = DELIMITER;
    assert(!r[0].contains(d));
    assert(!r[1].contains(d));
    assert(!r[2].contains(d));
    assert(!r[3].contains(d));
    assert(!r[4].contains(d));
    lemma_split_free(r[0], d);
    lemma_split_free(r[1], d);
    lemma_split_free(r[2], d);
    lemma_split_free(r[3], d);
    lemma_split_free(r[4], d);
    let s1 = r[0];
    let s2 = s1 + seq![d] + r[1];
    let s3 = s2 + seq![d] + r[2];
    let s4 = s3 + seq![d] + r[3];
    let s5 = s4 + seq![d] + r[4];
    lemma_split_concat(s1, r[1], d);
    lemma_split_concat(s2, r[2], d);
    lemma_split_concat(s3, r[3], d);
    lemma_split_concat(s4, r[4], d);
    assert(s5 == serialize(r));
    assert(split(s5, d) =~= r);
}

/// The lines of an encoded list are the records' text forms, then one empty
/// piece after the last newline.
proof fn lemma_encode_lines(rs: Seq<Seq<Seq<char>>>)
    requires
        forall|i: int| 0 <= i < rs.len() ==> record_ok(#[trigger] rs[i]),
    ensures
        split(encode(rs), NEWLINE) == rs.map_values(|r: Seq<Seq<char>>| serialize(r)).push(
            Seq::empty(),
        ),
    decreases rs.len(),
{
    let f = |r: Seq<Seq<char>>| serialize(r);
    if rs.len() == 0 {
        assert(rs.map_values(f).push(Seq::empty()) =~= seq![Seq::<char>::empty()]);
    } else {
        let prev = rs.drop_last();
        let r = rs.last();
        assert(record_ok(rs[rs.len() - 1]));
        assert forall|i: int| 0 <= i < 5 implies !(#[trigger] r[i]).contains(NEWLINE) by {
            assert(field_ok(r[i]));
        }
        lemma_serialize_lacks(r, NEWLINE);
        lemma_split_free(serialize(r), NEWLINE);
        let tail = serialize(r) + seq![NEWLINE];
        lemma_split_concat(serialize(r), Seq::empty(), NEWLINE);
        assert(serialize(r) + seq![NEWLINE] + Seq::<char>::empty() =~= tail);
        assert(split(tail, NEWLINE) =~= seq![serialize(r), Seq::<char>::empty()]);
        assert forall|i: int| 0 <= i < prev.len() implies record_ok(#[trigger] prev[i]) by {
            assert(record_ok(rs[i]));
        }
        lemma_encode_lines(prev);
        let e = encode(prev);
        assert(encode(rs) =~= e + tail);
        if prev.len() == 0 {
            assert(e + tail =~= tail);
            assert(rs.map_values(f).push(Seq::empty()) =~= seq![serialize(r), Seq::<char>::empty()]);
        } else {
            assert(e.last() == NEWLINE);
            lemma_split_after_terminator(e, tail, NEWLINE);
            assert(rs.map_values(f).push(Seq::empty()) =~= prev.map_values(f).push(
                Seq::empty(),
            ).drop_last() + seq![serialize(r), Seq::<char>::empty()]);
        }
    }
}

/// The text forms of well-formed records read back as those records.
proof fn lemma_parse_serialized(rs: Seq<Seq<Seq<char>>>)
    requires
        forall|i: int| 0 <= i < rs.len() ==> record_ok(#[trigger] rs[i]),
    ensures
        parse_lines(rs.map_values(|r: Seq<Seq<char>>| serialize(r))) == Some(rs),
    decreases rs.len(),
{
    let f = |r: Seq<Seq<char>>| serialize(r);
    let ms = rs.map_values(f);
    if rs.len() == 0 {
        assert(ms =~= Seq::<Seq<char>>::empty());
    } else {
        let prev = rs.drop_last();
        let r = rs.last();
        assert(record_ok(rs[rs.len() - 1]));
        assert forall|i: int| 0 <= i < prev.len() implies record_ok(#[trigger] prev[i]) by {
            assert(record_ok(rs[i]));
        }
        lemma_parse_serialized(prev);
        assert(ms.drop_last() =~= prev.map_values(f));
        assert forall|i: int| 0 <= i < 5 implies !(#[trigger] r[i]).contains(DELIMITER) by {
            assert(field_ok(r[i]));
        }
        lemma_round_trip(r);
        assert(ms.last() == serialize(r));
        assert(serialize(r).len() >= 4);
        assert(prev.push(r) =~= rs);
    }
}

/// Reading back the file form of well-formed records gives the same records,
/// in the same order.
pub proof fn lemma_encode_parse(rs: Seq<Seq<Seq<char>>>)
    requires
        forall|i: int| 0 <= i < rs.len() ==> record_ok(#[trigger] rs[i]),
    ensures
        parse_text(encode(rs)) == Some(rs),
{
    let f = |r: Seq<Seq<char>>| serialize(r);
    lemma_encode_lines(rs);
    lemma_parse_serialized(rs);
    let ls = rs.map_values(f).push(Seq::empty());
    assert(ls.drop_last() =~= rs.map_values(f));
}

/// Appending one journal line to a journal that reads back as `rs` gives a
/// journal that reads back as `rs` followed by the new record.
pub proof fn lemma_journal_append(j: Seq<char>, rs: Seq<Seq<Seq<char>>>, r: Seq<Seq<char>>)
    requires
        parse_text(j) == Some(rs),
        j.len() == 0 || j.last() == NEWLINE,
        record_ok(r),
    ensures
        parse_text(j + serialize(r) + seq![NEWLINE]) == Some(rs.push(r)),
{
    let tail = serialize(r) + seq![NEWLINE];
    assert(j + serialize(r) + seq![NEWLINE] =~= j + tail);
    lemma_encode_parse(seq![r]);
    assert(seq![r].drop_last() =~= Seq::<Seq<Seq<char>>>::empty());
    assert(encode(Seq::<Seq<Seq<char>>>::empty()) == Seq::<char>::empty());
    assert(seq![r].last() == r);
    assert(Seq::<char>::empty() + serialize(r) + seq![NEWLINE] =~= tail);
    assert(encode(seq![r]) =~= tail);
    if j.len() == 0 {
        assert(j + tail =~= tail);
        assert(split(j, NEWLINE) =~= seq![Seq::<char>::empty()]);
        assert(seq![Seq::<char>::empty()].drop_last() =~= Seq::<Seq<char>>::empty());
        assert(parse_lines(Seq::<Seq<char>>::empty()) == Some(Seq::<Seq<Seq<char>>>::empty()));
        assert(rs =~= Seq::<Seq<Seq<char>>>::empty());
        assert(rs.push(r) =~= seq![r]);
    } else {
        lemma_split_after_terminator(j, tail, NEWLINE);
        lemma_encode_lines(seq![r]);
        let f = |x: Seq<Seq<char>>| serialize(x);
        assert(seq![r].map_values(f) =~= seq![serialize(r)]);
        let ls = split(j, NEWLINE);
        let front = ls.drop_last();
        assert(ls.last().len() == 0);
        let all = front + seq![serialize(r), Seq::<char>::empty()];
        assert(split(j + tail, NEWLINE) =~= all);
        assert(all.drop_last() =~= front.push(serialize(r)));
        assert(front.push(serialize(r)).drop_last() =~= front);
        assert forall|i: int| 0 <= i < 5 implies !(#[trigger] r[i]).contains(DELIMITER) by {
            assert(field_ok(r[i]));
        }
        lemma_round_trip(r);
        assert(serialize(r).len() >= 4);
        assert(ls.drop_last() == front);
        assert(parse_lines(front) == Some(rs));
        assert(parse_lines(front.push(serialize(r))) == Some(rs.push(r)));
        assert(parse_lines(all) == Some(rs.push(r)));
    }
}

/// Every character of every piece is a character of the text, and none of
/// them is the delimiter.
pub proof fn lemma_split_chars(s: Seq<char>, d: char)
    ensures
        forall|i: int, k: int|
            0 <= i < split(s, d).len() && 0 <= k < split(s, d)[i].len() ==> #[trigger] split(
                s,
                d,
            )[i][k] != d && s.contains(split(s, d)[i][k]),
    decreases s.len(),
{
    if s.len() > 0 {
        let t = s.drop_last();
        lemma_split_chars(t, d);
        lemma_split_len(t, d);
        let rest = split(t, d);
        let ps = split(s, d);
        assert forall|i: int, k: int| 0 <= i < ps.len() && 0 <= k < ps[i].len() implies #[trigger] ps[i][k]
            != d && s.contains(ps[i][k]) by {
            let c = ps[i][k];
            if s.last() == d {
                assert(i < rest.len());
                assert(c == rest[i][k]);
                let j = choose|j: int| 0 <= j < t.len() && t[j] == c;
                assert(s[j] == c);
            } else if i < rest.len() - 1 || k < rest[i].len() {
                assert(c == rest[i][k]);
                let j = choose|j: int| 0 <= j < t.len() && t[j] == c;
                assert(s[j] == c);
            } else {
                assert(c == s.last());
                assert(s[s.len() - 1] == c);
            }
        }
    }
}

proof fn lemma_parse_lines_ok(ls: Seq<Seq<char>>)
    requires
        forall|i: int| 0 <= i < ls.len() ==> !(#[trigger] ls[i]).contains(NEWLINE),
        parse_lines(ls) is Some,
    ensures
        records_ok(parse_lines(ls)->0),
    decreases ls.len(),
{
    if ls.len() > 0 {
        let front = ls.drop_last();
        assert forall|i: int| 0 <= i < front.len() implies !(#[trigger] front[i]).contains(NEWLINE) by {
            assert(front[i] == ls[i]);
        }
        lemma_parse_lines_ok(front);
        let l = ls.last();
        if l.len() > 0 {
            let r = split(l, DELIMITER);
            assert(!ls[ls.len() - 1].contains(NEWLINE));
            lemma_split_chars(l, DELIMITER);
            assert forall|i: int| 0 <= i < r.len() implies field_ok(#[trigger] r[i]) by {
                assert forall|k: int| 0 <= k < r[i].len() implies r[i][k] != DELIMITER && r[i][k]
                    != NEWLINE by {
                    assert(r[i][k] != DELIMITER);
                    assert(l.contains(r[i][k]));
                }
            }
        }
    }
}

/// What a file reads back as is always something the format can carry.
pub proof fn lemma_parsed_records_ok(t: Seq<char>)
    requires
        parse_text(t) is Some,
    ensures
        records_ok(parse_text(t)->0),
{
    let ls = split(t, NEWLINE);
    lemma_split_chars(t, NEWLINE);
    assert forall|i: int| 0 <= i < ls.len() implies !(#[trigger] ls[i]).contains(NEWLINE) by {
        if ls[i].contains(NEWLINE) {
            let k = choose|k: int| 0 <= k < ls[i].len() && ls[i][k] == NEWLINE;
            assert(ls[i][k] != NEWLINE);
        }
    }
    lemma_parse_lines_ok(ls);
}

/// Ending an unterminated last line with a newline changes nothing that the
/// file reads back as.
pub proof fn lemma_terminate_line(j: Seq<char>)
    ensures
        parse_text(j.push(NEWLINE)) == parse_text(j),
{
    assert(j.push(NEWLINE).drop_last() =~= j);
    let ls = split(j, NEWLINE);
    assert(split(j.push(NEWLINE), NEWLINE) == ls.push(Seq::<char>::empty()));
    assert(ls.push(Seq::<char>::empty()).drop_last() =~= ls);
}

} // verus!
