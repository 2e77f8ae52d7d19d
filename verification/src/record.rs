//! The persisted text form of an issue.
//!
//! A record is a sequence of framed items, one frame per field part.  A
//! frame is a sixteen-digit hex length followed by that many characters,
//! so any text — titles with newlines included — rides through losslessly.
//! Optional fields take two frames: a one-character flag and a payload
//! that is empty when the field is absent.  Numbers, dates and enum codes
//! are sixteen-digit hex words.  Parsing accepts exactly the texts this
//! module writes and recovers every field unchanged.

use vstd::prelude::*;

use crate::fields::{IssuePriority, IssueStatus, IssueType};
use crate::hex::{all_hex, hex_decode, hex_encode, hex_seq, hex_value, pow16,
    lemma_decode_encode, lemma_encode_decode, lemma_hex_seq_len, lemma_pow16_values,
    lemma_u64_below_pow16_16};
use crate::ids::IssueHash;
use crate::issue::{Issue, IssueView};
use crate::Error;

verus! {

/// One frame: the text's length as sixteen hex digits, then the text.
pub open spec fn item(t: Seq<char>) -> Seq<char> {
    hex_seq(16, t.len()) + t
}

/// A sequence of frames, one after the other.
pub open spec fn items(ts: Seq<Seq<char>>) -> Seq<char>
    decreases ts.len(),
{
    if ts.len() == 0 {
        Seq::empty()
    } else {
        item(ts.first()) + items(ts.drop_first())
    }
}

/// Every text short enough for its length to fit one frame header.
pub open spec fn bounded_texts(ts: Seq<Seq<char>>) -> bool {
    forall|k: int| 0 <= k < ts.len() ==> (#[trigger] ts[k]).len() < pow16(16)
}

/// Framing one more text at the end extends the framed sequence.
pub proof fn lemma_items_push(ts: Seq<Seq<char>>, t: Seq<char>)
    ensures
        items(ts.push(t)) == items(ts) + item(t),
    decreases ts.len(),
{
    if ts.len() == 0 {
        assert(ts.push(t).drop_first() =~~= Seq::<Seq<char>>::empty());
        assert(ts.push(t).first() == t);
        assert(items(ts.push(t)) == item(t) + items(Seq::<Seq<char>>::empty()));
        assert(items(Seq::<Seq<char>>::empty()) =~= Seq::<char>::empty());
        assert(items(ts) =~= Seq::<char>::empty());
        assert(items(ts.push(t)) =~= items(ts) + item(t));
    } else {
        lemma_items_push(ts.drop_first(), t);
        assert(ts.push(t).drop_first() =~~= ts.drop_first().push(t));
        assert(ts.push(t).first() == ts.first());
        assert(items(ts.push(t)) == item(ts.first()) + items(ts.drop_first().push(t)));
        assert(items(ts.push(t)) == item(ts.first()) + (items(ts.drop_first()) + item(t)));
        assert(items(ts.push(t)) =~= items(ts) + item(t));
    }
}

/// Reads one frame starting at `pos`: its length header, then its text.
/// Fails if fewer than sixteen characters remain, the header is not hex,
/// or the text would run past the end.  Wherever a well-formed frame
/// starts at `pos`, reading succeeds and returns exactly that frame.
fn read_item(s: &str, pos: usize) -> (r: Result<(String, usize), Error>)
    requires
        pos <= s@.len(),
    ensures
        r is Ok ==> r->Ok_0.1 == pos + 16 + r->Ok_0.0@.len() && r->Ok_0.1 <= s@.len()
            && s@.subrange(pos as int, r->Ok_0.1 as int) == item(r->Ok_0.0@),
        forall|u: Seq<char>, rest: Seq<char>|
            u.len() < pow16(16) && s@.skip(pos as int) == item(u) + rest ==> r is Ok
                && r->Ok_0.0@ == u && r->Ok_0.1 == pos + 16 + u.len(),
{
    let n = s.unicode_len();
    proof {
        lemma_pow16_values();
    }
    if n - pos < 16 {
        proof {
            assert forall|u: Seq<char>, rest: Seq<char>|
                !(u.len() < pow16(16) && s@.skip(pos as int) == item(u) + rest) by {
                if u.len() < pow16(16) && s@.skip(pos as int) == item(u) + rest {
                    lemma_hex_seq_len(16, u.len());
                    assert(s@.skip(pos as int).len() >= 16);
                }
            }
        }
        return Err(Error::ParseError(s.to_owned()));
    }
    let ghost head = s@.subrange(pos as int, pos + 16);
    match hex_decode(s, pos, pos + 16) {
        None => {
            proof {
                assert forall|u: Seq<char>, rest: Seq<char>|
                    !(u.len() < pow16(16) && s@.skip(pos as int) == item(u) + rest) by {
                    if u.len() < pow16(16) && s@.skip(pos as int) == item(u) + rest {
                        lemma_decode_encode(16, u.len());
                        assert(head =~= hex_seq(16, u.len())) by {
                            lemma_hex_seq_len(16, u.len());
                            assert forall|j: int| 0 <= j < 16 implies head[j] == hex_seq(
                                16,
                                u.len(),
                            )[j] by {
                                assert(head[j] == s@.skip(pos as int)[j]);
                                assert((item(u) + rest)[j] == hex_seq(16, u.len())[j]);
                            }
                        }
                        assert(all_hex(head));
                    }
                }
            }
            Err(Error::ParseError(s.to_owned()))
        },
        Some(l) => {
            proof {
                lemma_encode_decode(head);
                assert(head == hex_seq(16, l as nat));
                crate::hex::lemma_hex_value_bound(head);
            }
            let room = n - pos - 16;
            if l > room as u64 {
                proof {
                    assert forall|u: Seq<char>, rest: Seq<char>|
                        !(u.len() < pow16(16) && s@.skip(pos as int) == item(u) + rest) by {
                        if u.len() < pow16(16) && s@.skip(pos as int) == item(u) + rest {
                            lemma_decode_encode(16, u.len());
                            assert(head =~= hex_seq(16, u.len())) by {
                                lemma_hex_seq_len(16, u.len());
                                assert forall|j: int| 0 <= j < 16 implies head[j] == hex_seq(
                                    16,
                                    u.len(),
                                )[j] by {
                                    assert(head[j] == s@.skip(pos as int)[j]);
                                    assert((item(u) + rest)[j] == hex_seq(16, u.len())[j]);
                                }
                            }
                            assert(hex_value(head) == u.len());
                            assert(s@.skip(pos as int).len() >= item(u).len()) by {
                                lemma_hex_seq_len(16, u.len());
                            }
                        }
                    }
                }
                return Err(Error::ParseError(s.to_owned()));
            }
            let len = l as usize;
            let text = s.substring_char(pos + 16, pos + 16 + len).to_owned();
            let end = pos + 16 + len;
            proof {
                assert(s@.subrange(pos as int, end as int) =~= item(text@));
                assert forall|u: Seq<char>, rest: Seq<char>|
                    u.len() < pow16(16) && s@.skip(pos as int) == item(u) + rest implies text@
                    == u && end == pos + 16 + u.len() by {
                    lemma_decode_encode(16, u.len());
                    lemma_hex_seq_len(16, u.len());
                    assert(head =~= hex_seq(16, u.len())) by {
                        assert forall|j: int| 0 <= j < 16 implies head[j] == hex_seq(
                            16,
                            u.len(),
                        )[j] by {
                            assert(head[j] == s@.skip(pos as int)[j]);
                            assert((item(u) + rest)[j] == hex_seq(16, u.len())[j]);
                        }
                    }
                    assert(hex_value(head) == u.len());
                    assert(u.len() == len);
                    assert(text@ =~= u) by {
                        assert forall|j: int| 0 <= j < len implies text@[j] == u[j] by {
                            assert(text@[j] == s@.skip(pos as int)[16 + j]);
                            assert((item(u) + rest)[16 + j] == u[j]);
                        }
                    }
                }
            }
            Ok((text, end))
        },
    }
}

/// The views of a vector of texts.
pub open spec fn texts_of(ts: Seq<String>) -> Seq<Seq<char>> {
    ts.map_values(|t: String| t@)
}

/// Splits a whole text into its frames.  Succeeds exactly on texts that
/// are a well-formed sequence of frames, and recovers exactly the framed
/// texts.
fn split_items(s: &str) -> (r: Result<Vec<String>, Error>)
    ensures
        r is Ok ==> s@ == items(texts_of(r->Ok_0@)) && bounded_texts(texts_of(r->Ok_0@)),
        forall|l: Seq<Seq<char>>| bounded_texts(l) && s@ == items(l) ==> r is Ok && texts_of(
            r->Ok_0@,
        ) == l,
{
    let n = s.unicode_len();
    let mut out: Vec<String> = Vec::new();
    let mut pos: usize = 0;
    proof {
        assert(texts_of(out@) =~~= Seq::<Seq<char>>::empty());
        assert(s@.subrange(0, 0) =~= items(texts_of(out@)));
        assert forall|l: Seq<Seq<char>>|
            bounded_texts(l) && s@ == items(l) implies l.len() >= texts_of(out@).len()
                && l.take(texts_of(out@).len() as int) == texts_of(out@) && s@.skip(0) == items(
                l.skip(texts_of(out@).len() as int),
            ) by {
            assert(l.take(0) =~~= texts_of(out@));
            assert(l.skip(0) =~~= l);
            assert(s@.skip(0) =~= s@);
        }
    }
    while pos < n
        invariant
            pos <= n,
            n == s@.len(),
            s@.subrange(0, pos as int) == items(texts_of(out@)),
            bounded_texts(texts_of(out@)),
            forall|l: Seq<Seq<char>>|
                bounded_texts(l) && s@ == items(l) ==> l.len() >= texts_of(out@).len()
                    && l.take(texts_of(out@).len() as int) == texts_of(out@) && s@.skip(
                    pos as int,
                ) == items(l.skip(texts_of(out@).len() as int)),
        decreases n - pos,
    {
        let ghost done = texts_of(out@);
        match read_item(s, pos) {
            Err(e) => {
                proof {
                    assert forall|l: Seq<Seq<char>>| !(bounded_texts(l) && s@ == items(l)) by {
                        if bounded_texts(l) && s@ == items(l) {
                            let tail = l.skip(done.len() as int);
                            assert(s@.skip(pos as int) == items(tail));
                            if tail.len() == 0 {
                                assert(s@.skip(pos as int).len() == 0);
                            } else {
                                assert(items(tail) == item(tail.first()) + items(
                                    tail.drop_first(),
                                ));
                                assert(tail.first().len() < pow16(16)) by {
                                    assert(l[done.len() as int] == tail.first());
                                }
                            }
                        }
                    }
                }
                return Err(e);
            },
            Ok((t, p)) => {
                proof {
                    assert(p > pos);
                    assert(s@.subrange(0, p as int) =~= s@.subrange(0, pos as int) + s@.subrange(
                        pos as int,
                        p as int,
                    ));
                    lemma_items_push(done, t@);
                    assert(texts_of(out@.push(t)) =~~= done.push(t@));
                    assert(t@.len() < pow16(16)) by {
                        lemma_pow16_values();
                    }
                    assert forall|k: int| 0 <= k < done.push(t@).len() implies (#[trigger] done.push(
                        t@,
                    )[k]).len() < pow16(16) by {
                        if k < done.len() {
                            assert(done[k].len() < pow16(16));
                        }
                    }
                    assert forall|l: Seq<Seq<char>>|
                        bounded_texts(l) && s@ == items(l) implies l.len() >= done.push(t@).len()
                            && l.take(done.push(t@).len() as int) == done.push(t@) && s@.skip(
                            p as int,
                        ) == items(l.skip(done.push(t@).len() as int)) by {
                        let tail = l.skip(done.len() as int);
                        assert(s@.skip(pos as int) == items(tail));
                        if tail.len() == 0 {
                            assert(s@.skip(pos as int).len() == 0);
                            assert(false);
                        } else {
                            assert(items(tail) == item(tail.first()) + items(tail.drop_first()));
                            assert(tail.first().len() < pow16(16)) by {
                                assert(l[done.len() as int] == tail.first());
                            }
                            assert(t@ == tail.first() && p == pos + 16 + tail.first().len());
                            assert(l.len() >= done.push(t@).len());
                            assert(l.take(done.push(t@).len() as int) =~~= done.push(t@)) by {
                                assert(l.take(done.len() as int) == done);
                                assert forall|k: int| 0 <= k < done.push(t@).len() implies l.take(
                                    done.push(t@).len() as int,
                                )[k] == done.push(t@)[k] by {
                                    if k < done.len() {
                                        assert(l.take(done.len() as int)[k] == done[k]);
                                    } else {
                                        assert(l[k] == tail.first());
                                    }
                                }
                            }
                            assert(l.skip(done.push(t@).len() as int) =~~= tail.drop_first());
                            assert(s@.skip(p as int) =~= items(tail.drop_first())) by {
                                assert(s@.skip(pos as int) == item(tail.first()) + items(
                                    tail.drop_first(),
                                ));
                                assert(item(tail.first()).len() == 16 + tail.first().len()) by {
                                    lemma_hex_seq_len(16, tail.first().len());
                                }
                                assert forall|j: int| 0 <= j < s@.skip(p as int).len()
                                    implies s@.skip(p as int)[j] == items(tail.drop_first())[j] by {
                                    assert(s@.skip(p as int)[j] == s@.skip(pos as int)[(p - pos)
                                        + j]);
                                    assert((item(tail.first()) + items(tail.drop_first()))[(p - pos)
                                        + j] == items(tail.drop_first())[j]);
                                }
                            }
                        }
                    }
                }
                out.push(t);
                pos = p;
            },
        }
    }
    proof {
        assert(s@.subrange(0, n as int) =~= s@);
        assert forall|l: Seq<Seq<char>>|
            bounded_texts(l) && s@ == items(l) implies texts_of(out@) == l by {
            let done = texts_of(out@);
            let tail = l.skip(done.len() as int);
            assert(s@.skip(pos as int) == items(tail));
            assert(s@.skip(pos as int).len() == 0);
            if tail.len() > 0 {
                assert(items(tail) == item(tail.first()) + items(tail.drop_first()));
                lemma_hex_seq_len(16, tail.first().len());
                assert(false);
            }
            assert(l.take(done.len() as int) =~~= l);
        }
    }
    Ok(out)
}

} // verus!

verus! {

/// The numeric code of an issue type inside a record.
pub open spec fn type_code(t: IssueType) -> u64 {
    match t {
        IssueType::Bug => 0,
        IssueType::Feature => 1,
        IssueType::Improvement => 2,
        IssueType::Task => 3,
    }
}

/// The numeric code of a priority inside a record.
pub open spec fn priority_code(p: IssuePriority) -> u64 {
    match p {
        IssuePriority::Low => 0,
        IssuePriority::Medium => 1,
        IssuePriority::High => 2,
    }
}

/// The numeric code of a status inside a record.
pub open spec fn status_code(s: IssueStatus) -> u64 {
    match s {
        IssueStatus::Open => 0,
        IssueStatus::Closed => 1,
        IssueStatus::InProgress => 2,
        IssueStatus::Review => 3,
        IssueStatus::Rejected => 4,
        IssueStatus::Halted => 5,
    }
}

/// A sixteen-digit hex word.
pub open spec fn num_text(v: u64) -> Seq<char> {
    hex_seq(16, v as nat)
}

/// The one-character presence flag of an optional field.
pub open spec fn flag_text(present: bool) -> Seq<char> {
    if present {
        seq!['1']
    } else {
        seq!['0']
    }
}

/// The payload of an optional text field: empty when absent.
pub open spec fn opt_payload(o: Option<Seq<char>>) -> Seq<char> {
    match o {
        None => Seq::empty(),
        Some(t) => t,
    }
}

/// The payload of an optional numeric field: empty when absent.
pub open spec fn opt_num_payload(o: Option<u64>) -> Seq<char> {
    match o {
        None => Seq::empty(),
        Some(v) => num_text(v),
    }
}

/// The frame texts of an issue, in the fixed record order.
pub open spec fn field_texts(v: IssueView) -> Seq<Seq<char>> {
    seq![
        num_text(v.hash),
        v.title,
        flag_text(v.description is Some),
        opt_payload(v.description),
        num_text(type_code(v.typ)),
        flag_text(v.parent is Some),
        opt_num_payload(v.parent),
        v.author,
        flag_text(v.assigned_to is Some),
        opt_payload(v.assigned_to),
        num_text(priority_code(v.priority)),
        num_text(status_code(v.status)),
        num_text(v.progress as u64),
        num_text(v.creation_date as u64),
        num_text(v.start_date as u64),
        flag_text(v.due_date is Some),
        match v.due_date {
            None => Seq::<char>::empty(),
            Some(d) => num_text(d as u64),
        },
    ]
}

/// The persisted text of an issue: its frames, one after the other.
pub open spec fn spec_record(v: IssueView) -> Seq<char> {
    items(field_texts(v))
}

/// Whether every text field of a view is short enough to frame.
pub open spec fn bounded_view(v: IssueView) -> bool {
    &&& v.title.len() < pow16(16)
    &&& v.author.len() < pow16(16)
    &&& (v.description is Some ==> v.description->0.len() < pow16(16))
    &&& (v.assigned_to is Some ==> v.assigned_to->0.len() < pow16(16))
}

/// A bounded view's frame texts are all short enough to frame.
pub proof fn lemma_field_texts_bounded(v: IssueView)
    requires
        bounded_view(v),
    ensures
        bounded_texts(field_texts(v)),
{
    lemma_pow16_values();
    let ts = field_texts(v);
    assert forall|k: int| 0 <= k < ts.len() implies (#[trigger] ts[k]).len() < pow16(16) by {
        lemma_hex_seq_len(16, v.hash as nat);
        lemma_hex_seq_len(16, type_code(v.typ) as nat);
        lemma_hex_seq_len(16, priority_code(v.priority) as nat);
        lemma_hex_seq_len(16, status_code(v.status) as nat);
        lemma_hex_seq_len(16, v.progress as nat);
        lemma_hex_seq_len(16, (v.creation_date as u64) as nat);
        lemma_hex_seq_len(16, (v.start_date as u64) as nat);
        match v.parent {
            Some(p) => lemma_hex_seq_len(16, p as nat),
            None => {},
        }
        match v.due_date {
            Some(d) => lemma_hex_seq_len(16, (d as u64) as nat),
            None => {},
        }
    }
}

/// Casting a signed date to its unsigned word and back loses nothing.
pub proof fn lemma_date_word_round(x: i64)
    ensures
        (x as u64) as i64 == x,
{
    assert((x as u64) as i64 == x) by (bit_vector);
}

/// Equal unsigned date words come from equal signed dates.
pub proof fn lemma_date_word_injective(x: i64, y: i64)
    requires
        x as u64 == y as u64,
    ensures
        x == y,
{
    lemma_date_word_round(x);
    lemma_date_word_round(y);
}

/// Appends one frame: the text's length header, then the text.
fn append_item(out: &mut String, t: &str)
    ensures
        final(out)@ == old(out)@ + item(t@),
        t@.len() < pow16(16),
{
    let l = t.unicode_len();
    proof {
        lemma_u64_below_pow16_16(l as u64);
    }
    let header = hex_encode(16, l as u64);
    out.append(header.as_str());
    out.append(t);
    assert(out@ =~= old(out)@ + item(t@));
}

/// The numeric code of this type, for a record.
fn type_code_of(t: &IssueType) -> (c: u64)
    ensures
        c == type_code(*t),
{
    match t {
        IssueType::Bug => 0,
        IssueType::Feature => 1,
        IssueType::Improvement => 2,
        IssueType::Task => 3,
    }
}

/// The numeric code of this priority, for a record.
fn priority_code_of(p: &IssuePriority) -> (c: u64)
    ensures
        c == priority_code(*p),
{
    match p {
        IssuePriority::Low => 0,
        IssuePriority::Medium => 1,
        IssuePriority::High => 2,
    }
}

/// The numeric code of this status, for a record.
fn status_code_of(s: &IssueStatus) -> (c: u64)
    ensures
        c == status_code(*s),
{
    match s {
        IssueStatus::Open => 0,
        IssueStatus::Closed => 1,
        IssueStatus::InProgress => 2,
        IssueStatus::Review => 3,
        IssueStatus::Rejected => 4,
        IssueStatus::Halted => 5,
    }
}

/// The type with the given record code, if any.
fn type_from_code(c: u64) -> (r: Option<IssueType>)
    ensures
        r is Some <==> c <= 3,
        r is Some ==> type_code(r->0) == c,
{
    if c == 0 { Some(IssueType::Bug) }
    else if c == 1 { Some(IssueType::Feature) }
    else if c == 2 { Some(IssueType::Improvement) }
    else if c == 3 { Some(IssueType::Task) }
    else { None }
}

/// The priority with the given record code, if any.
fn priority_from_code(c: u64) -> (r: Option<IssuePriority>)
    ensures
        r is Some <==> c <= 2,
        r is Some ==> priority_code(r->0) == c,
{
    if c == 0 { Some(IssuePriority::Low) }
    else if c == 1 { Some(IssuePriority::Medium) }
    else if c == 2 { Some(IssuePriority::High) }
    else { None }
}

/// The status with the given record code, if any.
fn status_from_code(c: u64) -> (r: Option<IssueStatus>)
    ensures
        r is Some <==> c <= 5,
        r is Some ==> status_code(r->0) == c,
{
    if c == 0 { Some(IssueStatus::Open) }
    else if c == 1 { Some(IssueStatus::Closed) }
    else if c == 2 { Some(IssueStatus::InProgress) }
    else if c == 3 { Some(IssueStatus::Review) }
    else if c == 4 { Some(IssueStatus::Rejected) }
    else if c == 5 { Some(IssueStatus::Halted) }
    else { None }
}

/// Reads a sixteen-digit hex word; accepts exactly such texts.
fn decode_num(t: &str) -> (r: Option<u64>)
    ensures
        r is Some <==> t@.len() == 16 && all_hex(t@),
        r is Some ==> t@ == num_text(r->0),
{
    let n = t.unicode_len();
    if n != 16 {
        return None;
    }
    assert(t@.subrange(0, 16) =~= t@);
    match hex_decode(t, 0, 16) {
        None => None,
        Some(v) => {
            proof {
                lemma_encode_decode(t@);
            }
            Some(v)
        },
    }
}

/// Reads a one-character presence flag; accepts exactly `0` and `1`.
fn decode_flag(t: &str) -> (r: Option<bool>)
    ensures
        r is Some <==> (t@ == flag_text(true) || t@ == flag_text(false)),
        r is Some ==> t@ == flag_text(r->0),
{
    let n = t.unicode_len();
    if n != 1 {
        return None;
    }
    let c = t.get_char(0);
    if c == '1' {
        assert(t@ =~= flag_text(true));
        Some(true)
    } else if c == '0' {
        assert(t@ =~= flag_text(false));
        Some(false)
    } else {
        assert(t@ != flag_text(true) && t@ != flag_text(false)) by {
            assert(flag_text(true)[0] == '1' && flag_text(false)[0] == '0');
        }
        None
    }
}

} // verus!

verus! {

/// The word with the given signed reading, read back as a word.
pub proof fn lemma_word_date_round(w: u64)
    ensures
        (w as i64) as u64 == w,
{
    assert((w as i64) as u64 == w) by (bit_vector);
}

/// Renders an issue as its persisted record text.
#[verifier::rlimit(100)]
pub fn issue_record_text(issue: &Issue) -> (r: String)
    ensures
        r@ == spec_record(issue@),
        bounded_view(issue@),
{
    let ghost v = issue@;
    let mut out = String::new();
    let ghost mut ts: Seq<Seq<char>> = Seq::empty();
    proof {
        assert(out@ =~= items(ts));
        reveal_strlit("0");
        reveal_strlit("1");
        reveal_strlit("");
        assert("1"@ =~= flag_text(true));
        assert("0"@ =~= flag_text(false));
        assert(""@ =~= Seq::<char>::empty());
        lemma_pow16_values();
    }
    // hash
    let t = issue.hash().to_text();
    append_item(&mut out, t.as_str());
    proof {
        lemma_items_push(ts, t@);
        ts = ts.push(t@);
        assert(t@ == num_text(v.hash));
    }
    // title
    append_item(&mut out, issue.title().as_str());
    proof {
        lemma_items_push(ts, v.title);
        ts = ts.push(v.title);
    }
    // description
    match issue.description() {
        Some(d) => {
            append_item(&mut out, "1");
            proof {
                lemma_items_push(ts, flag_text(true));
                ts = ts.push(flag_text(true));
            }
            append_item(&mut out, d.as_str());
            proof {
                lemma_items_push(ts, d@);
                ts = ts.push(d@);
                assert(d@ == opt_payload(v.description));
            }
        },
        None => {
            append_item(&mut out, "0");
            proof {
                lemma_items_push(ts, flag_text(false));
                ts = ts.push(flag_text(false));
            }
            append_item(&mut out, "");
            proof {
                lemma_items_push(ts, Seq::<char>::empty());
                ts = ts.push(Seq::<char>::empty());
            }
        },
    }
    proof {
        assert(ts[2] == flag_text(v.description is Some));
        assert(ts[3] == opt_payload(v.description));
    }
    // type
    let t = hex_encode(16, type_code_of(issue.typ()));
    append_item(&mut out, t.as_str());
    proof {
        lemma_items_push(ts, t@);
        ts = ts.push(t@);
        assert(t@ == num_text(type_code(v.typ)));
    }
    // parent
    match issue.parent() {
        Some(p) => {
            append_item(&mut out, "1");
            proof {
                lemma_items_push(ts, flag_text(true));
                ts = ts.push(flag_text(true));
            }
            let t = p.to_text();
            append_item(&mut out, t.as_str());
            proof {
                lemma_items_push(ts, t@);
                ts = ts.push(t@);
            }
        },
        None => {
            append_item(&mut out, "0");
            proof {
                lemma_items_push(ts, flag_text(false));
                ts = ts.push(flag_text(false));
            }
            append_item(&mut out, "");
            proof {
                lemma_items_push(ts, Seq::<char>::empty());
                ts = ts.push(Seq::<char>::empty());
            }
        },
    }
    proof {
        assert(ts[5] == flag_text(v.parent is Some));
        assert(ts[6] == opt_num_payload(v.parent));
    }
    // author
    append_item(&mut out, issue.author().as_str());
    proof {
        lemma_items_push(ts, v.author);
        ts = ts.push(v.author);
    }
    // assigned to
    match issue.assigned_to() {
        Some(a) => {
            append_item(&mut out, "1");
            proof {
                lemma_items_push(ts, flag_text(true));
                ts = ts.push(flag_text(true));
            }
            append_item(&mut out, a.as_str());
            proof {
                lemma_items_push(ts, a@);
                ts = ts.push(a@);
            }
        },
        None => {
            append_item(&mut out, "0");
            proof {
                lemma_items_push(ts, flag_text(false));
                ts = ts.push(flag_text(false));
            }
            append_item(&mut out, "");
            proof {
                lemma_items_push(ts, Seq::<char>::empty());
                ts = ts.push(Seq::<char>::empty());
            }
        },
    }
    proof {
        assert(ts[8] == flag_text(v.assigned_to is Some));
        assert(ts[9] == opt_payload(v.assigned_to));
    }
    // priority
    let t = hex_encode(16, priority_code_of(issue.priority()));
    append_item(&mut out, t.as_str());
    proof {
        lemma_items_push(ts, t@);
        ts = ts.push(t@);
    }
    // status
    let t = hex_encode(16, status_code_of(issue.status()));
    append_item(&mut out, t.as_str());
    proof {
        lemma_items_push(ts, t@);
        ts = ts.push(t@);
    }
    // progress
    let t = hex_encode(16, issue.progress() as u64);
    append_item(&mut out, t.as_str());
    proof {
        lemma_items_push(ts, t@);
        ts = ts.push(t@);
    }
    // creation date
    let t = hex_encode(16, #[verifier::truncate] (issue.creation_date() as u64));
    append_item(&mut out, t.as_str());
    proof {
        lemma_items_push(ts, t@);
        ts = ts.push(t@);
    }
    // start date
    let t = hex_encode(16, #[verifier::truncate] (issue.start_date() as u64));
    append_item(&mut out, t.as_str());
    proof {
        lemma_items_push(ts, t@);
        ts = ts.push(t@);
    }
    // due date
    match issue.due_date() {
        Some(d) => {
            append_item(&mut out, "1");
            proof {
                lemma_items_push(ts, flag_text(true));
                ts = ts.push(flag_text(true));
            }
            let t = hex_encode(16, #[verifier::truncate] (*d as u64));
            append_item(&mut out, t.as_str());
            proof {
                lemma_items_push(ts, t@);
                ts = ts.push(t@);
            }
        },
        None => {
            append_item(&mut out, "0");
            proof {
                lemma_items_push(ts, flag_text(false));
                ts = ts.push(flag_text(false));
            }
            append_item(&mut out, "");
            proof {
                lemma_items_push(ts, Seq::<char>::empty());
                ts = ts.push(Seq::<char>::empty());
            }
        },
    }
    proof {
        assert(ts =~~= field_texts(v));
        assert(out@ == spec_record(v));
    }
    out
}

} // verus!

verus! {

/// Whether a text is the record of a given well-formed, bounded view.
pub open spec fn encodes(s: Seq<char>, v: IssueView) -> bool {
    v.wf() && bounded_view(v) && s == spec_record(v)
}

/// Hex words of sixteen digits denote distinct values distinctly.
pub proof fn lemma_num_text_injective(a: u64, b: u64)
    requires
        num_text(a) == num_text(b),
    ensures
        a == b,
{
    lemma_u64_below_pow16_16(a);
    lemma_u64_below_pow16_16(b);
    lemma_decode_encode(16, a as nat);
    lemma_decode_encode(16, b as nat);
}

/// A hex word is sixteen hex digits.
pub proof fn lemma_num_text_form(a: u64)
    ensures
        num_text(a).len() == 16,
        all_hex(num_text(a)),
{
    lemma_u64_below_pow16_16(a);
    lemma_decode_encode(16, a as nat);
}

/// The two presence flags are distinct texts.
pub proof fn lemma_flag_injective(a: bool, b: bool)
    requires
        flag_text(a) == flag_text(b),
    ensures
        a == b,
{
    assert(flag_text(true)[0] == '1');
    assert(flag_text(false)[0] == '0');
}

/// The types, priorities and statuses have distinct record codes.
pub proof fn lemma_codes_injective()
    ensures
        forall|a: IssueType, b: IssueType| type_code(a) == type_code(b) ==> a == b,
        forall|a: IssuePriority, b: IssuePriority| priority_code(a) == priority_code(b) ==> a == b,
        forall|a: IssueStatus, b: IssueStatus| status_code(a) == status_code(b) ==> a == b,
{
}

} // verus!

verus! {

/// Two views with the same frame texts are the same view, field by field.
pub proof fn lemma_field_texts_injective(a: IssueView, b: IssueView)
    requires
        field_texts(a) == field_texts(b),
    ensures
        a == b,
{
    let fa = field_texts(a);
    let fb = field_texts(b);
    lemma_codes_injective();
    assert(fa[0] == fb[0]);
    lemma_num_text_injective(a.hash, b.hash);
    assert(fa[1] == fb[1]);
    assert(fa[2] == fb[2]);
    lemma_flag_injective(a.description is Some, b.description is Some);
    if a.description is Some {
        assert(fa[3] == fb[3]);
    }
    assert(fa[4] == fb[4]);
    lemma_num_text_injective(type_code(a.typ), type_code(b.typ));
    assert(fa[5] == fb[5]);
    lemma_flag_injective(a.parent is Some, b.parent is Some);
    if a.parent is Some {
        assert(fa[6] == fb[6]);
        lemma_num_text_injective(a.parent->0, b.parent->0);
    }
    assert(fa[7] == fb[7]);
    assert(fa[8] == fb[8]);
    lemma_flag_injective(a.assigned_to is Some, b.assigned_to is Some);
    if a.assigned_to is Some {
        assert(fa[9] == fb[9]);
    }
    assert(fa[10] == fb[10]);
    lemma_num_text_injective(priority_code(a.priority), priority_code(b.priority));
    assert(fa[11] == fb[11]);
    lemma_num_text_injective(status_code(a.status), status_code(b.status));
    assert(fa[12] == fb[12]);
    lemma_num_text_injective(a.progress as u64, b.progress as u64);
    assert(fa[13] == fb[13]);
    lemma_num_text_injective(a.creation_date as u64, b.creation_date as u64);
    lemma_date_word_injective(a.creation_date, b.creation_date);
    assert(fa[14] == fb[14]);
    lemma_num_text_injective(a.start_date as u64, b.start_date as u64);
    lemma_date_word_injective(a.start_date, b.start_date);
    assert(fa[15] == fb[15]);
    lemma_flag_injective(a.due_date is Some, b.due_date is Some);
    if a.due_date is Some {
        assert(fa[16] == fb[16]);
        lemma_num_text_injective(a.due_date->0 as u64, b.due_date->0 as u64);
        lemma_date_word_injective(a.due_date->0, b.due_date->0);
    }
    assert(a =~= b);
}

/// The structural conditions under which the seventeen frame texts of a
/// record decode: each number is a sixteen-digit hex word in range, each
/// flag is a single `0` or `1`, the title is non-empty, and every absent
/// optional field has an empty payload.
pub open spec fn valid_fields(f: Seq<Seq<char>>) -> bool {
    &&& f.len() == 17
    &&& f[0].len() == 16 && all_hex(f[0])
    &&& f[1].len() > 0
    &&& (f[2] == flag_text(true) || f[2] == flag_text(false))
    &&& (f[2] == flag_text(false) ==> f[3].len() == 0)
    &&& f[4].len() == 16 && all_hex(f[4]) && hex_value(f[4]) <= 3
    &&& (f[5] == flag_text(true) || f[5] == flag_text(false))
    &&& (f[5] == flag_text(true) ==> f[6].len() == 16 && all_hex(f[6]))
    &&& (f[5] == flag_text(false) ==> f[6].len() == 0)
    &&& (f[8] == flag_text(true) || f[8] == flag_text(false))
    &&& (f[8] == flag_text(false) ==> f[9].len() == 0)
    &&& f[10].len() == 16 && all_hex(f[10]) && hex_value(f[10]) <= 2
    &&& f[11].len() == 16 && all_hex(f[11]) && hex_value(f[11]) <= 5
    &&& f[12].len() == 16 && all_hex(f[12]) && hex_value(f[12]) <= 100
    &&& f[13].len() == 16 && all_hex(f[13])
    &&& f[14].len() == 16 && all_hex(f[14])
    &&& (f[15] == flag_text(true) || f[15] == flag_text(false))
    &&& (f[15] == flag_text(true) ==> f[16].len() == 16 && all_hex(f[16]))
    &&& (f[15] == flag_text(false) ==> f[16].len() == 0)
}

/// A hex word reads back as the value it was written from.
pub proof fn lemma_num_text_value(x: u64)
    ensures
        hex_value(num_text(x)) == x as nat,
{
    lemma_u64_below_pow16_16(x);
    lemma_decode_encode(16, x as nat);
}

/// The two presence flags are distinct texts.
pub proof fn lemma_flags_distinct()
    ensures
        flag_text(true) != flag_text(false),
{
    assert(flag_text(true)[0] == '1');
    assert(flag_text(false)[0] == '0');
}

/// Law: the frame texts of every well-formed issue decode.
pub proof fn lemma_wf_valid(v: IssueView)
    requires
        v.wf(),
    ensures
        valid_fields(field_texts(v)),
{
    lemma_flags_distinct();
    lemma_num_text_form(v.hash);
    lemma_num_text_form(type_code(v.typ));
    lemma_num_text_value(type_code(v.typ));
    lemma_num_text_form(priority_code(v.priority));
    lemma_num_text_value(priority_code(v.priority));
    lemma_num_text_form(status_code(v.status));
    lemma_num_text_value(status_code(v.status));
    lemma_num_text_form(v.progress as u64);
    lemma_num_text_value(v.progress as u64);
    lemma_num_text_form(v.creation_date as u64);
    lemma_num_text_form(v.start_date as u64);
    match v.parent {
        Some(p) => lemma_num_text_form(p),
        None => {},
    }
    match v.due_date {
        Some(d) => lemma_num_text_form(d as u64),
        None => {},
    }
}

/// Decodes the seventeen frame texts of a record into an issue: exactly
/// the lists that satisfy `valid_fields` decode, and the decoded issue
/// writes the same frame texts back.
#[verifier::rlimit(100)]
fn parse_fields(s: &str, ts: &Vec<String>) -> (r: Result<Issue, Error>)
    requires
        bounded_texts(texts_of(ts@)),
    ensures
        r is Ok ==> r->Ok_0@.wf() && bounded_view(r->Ok_0@) && texts_of(ts@) == field_texts(
            r->Ok_0@,
        ),
        r is Err ==> !valid_fields(texts_of(ts@)),
{
    let ghost fts = texts_of(ts@);
    if ts.len() != 17 {
        return Err(Error::ParseError(s.to_owned()));
    }
    // identity
    let hash_word = match decode_num((&ts[0]).as_str()) {
        Some(x) => x,
        None => {
            return Err(Error::ParseError(s.to_owned()));
        },
    };
    proof {
        lemma_num_text_value(hash_word);
    }
    // title
    if (&ts[1]).unicode_len() == 0 {
        return Err(Error::ParseError(s.to_owned()));
    }
    let title = (&ts[1]).clone();
    // description
    let dflag = match decode_flag((&ts[2]).as_str()) {
        Some(b) => b,
        None => {
            return Err(Error::ParseError(s.to_owned()));
        },
    };
    let description: Option<String> = if dflag {
        Some((&ts[3]).clone())
    } else {
        if (&ts[3]).unicode_len() != 0 {
            return Err(Error::ParseError(s.to_owned()));
        }
        None
    };
    // type
    let type_word = match decode_num((&ts[4]).as_str()) {
        Some(x) => x,
        None => {
            return Err(Error::ParseError(s.to_owned()));
        },
    };
    proof {
        lemma_num_text_value(type_word);
    }
    let typ = match type_from_code(type_word) {
        Some(t) => t,
        None => {
            return Err(Error::ParseError(s.to_owned()));
        },
    };
    // parent
    let pflag = match decode_flag((&ts[5]).as_str()) {
        Some(b) => b,
        None => {
            return Err(Error::ParseError(s.to_owned()));
        },
    };
    let parent: Option<IssueHash> = if pflag {
        match decode_num((&ts[6]).as_str()) {
            Some(w) => Some(IssueHash::from_value(w)),
            None => {
                return Err(Error::ParseError(s.to_owned()));
            },
        }
    } else {
        if (&ts[6]).unicode_len() != 0 {
            return Err(Error::ParseError(s.to_owned()));
        }
        None
    };
    // author
    let author = (&ts[7]).clone();
    // assigned to
    let aflag = match decode_flag((&ts[8]).as_str()) {
        Some(b) => b,
        None => {
            return Err(Error::ParseError(s.to_owned()));
        },
    };
    let assigned_to: Option<String> = if aflag {
        Some((&ts[9]).clone())
    } else {
        if (&ts[9]).unicode_len() != 0 {
            return Err(Error::ParseError(s.to_owned()));
        }
        None
    };
    // priority
    let priority_word = match decode_num((&ts[10]).as_str()) {
        Some(x) => x,
        None => {
            return Err(Error::ParseError(s.to_owned()));
        },
    };
    proof {
        lemma_num_text_value(priority_word);
    }
    let priority = match priority_from_code(priority_word) {
        Some(p) => p,
        None => {
            return Err(Error::ParseError(s.to_owned()));
        },
    };
    // status
    let status_word = match decode_num((&ts[11]).as_str()) {
        Some(x) => x,
        None => {
            return Err(Error::ParseError(s.to_owned()));
        },
    };
    proof {
        lemma_num_text_value(status_word);
    }
    let status = match status_from_code(status_word) {
        Some(st) => st,
        None => {
            return Err(Error::ParseError(s.to_owned()));
        },
    };
    // progress
    let progress_word = match decode_num((&ts[12]).as_str()) {
        Some(x) => x,
        None => {
            return Err(Error::ParseError(s.to_owned()));
        },
    };
    proof {
        lemma_num_text_value(progress_word);
    }
    if progress_word > 100 {
        return Err(Error::ParseError(s.to_owned()));
    }
    let progress = progress_word as u8;
    // creation date
    let creation_word = match decode_num((&ts[13]).as_str()) {
        Some(x) => x,
        None => {
            return Err(Error::ParseError(s.to_owned()));
        },
    };
    let creation_date = #[verifier::truncate] (creation_word as i64);
    // start date
    let start_word = match decode_num((&ts[14]).as_str()) {
        Some(x) => x,
        None => {
            return Err(Error::ParseError(s.to_owned()));
        },
    };
    let start_date = #[verifier::truncate] (start_word as i64);
    // due date
    let uflag = match decode_flag((&ts[15]).as_str()) {
        Some(b) => b,
        None => {
            return Err(Error::ParseError(s.to_owned()));
        },
    };
    let ghost mut due_word: u64 = 0;
    let due_date: Option<i64> = if uflag {
        match decode_num((&ts[16]).as_str()) {
            Some(x) => {
                proof {
                    due_word = x;
                    assert(fts[16] == num_text(due_word));
                }
                Some(#[verifier::truncate] (x as i64))
            },
            None => {
                return Err(Error::ParseError(s.to_owned()));
            },
        }
    } else {
        if (&ts[16]).unicode_len() != 0 {
            return Err(Error::ParseError(s.to_owned()));
        }
        None
    };
    let issue = Issue::from_parts(
        IssueHash::from_value(hash_word),
        title,
        description,
        typ,
        parent,
        author,
        assigned_to,
        priority,
        status,
        progress,
        creation_date,
        start_date,
        due_date,
    );
    proof {
        let w = issue@;
        assert(fts =~~= field_texts(w)) by {
            assert(fts[0] == num_text(w.hash));
            assert(fts[1] == w.title);
            assert(fts[2] == flag_text(w.description is Some));
            if !dflag {
                assert(fts[3] =~= opt_payload(w.description));
            }
            assert(fts[4] == num_text(type_code(w.typ)));
            assert(fts[5] == flag_text(w.parent is Some));
            if !pflag {
                assert(fts[6] =~= opt_num_payload(w.parent));
            }
            assert(fts[7] == w.author);
            assert(fts[8] == flag_text(w.assigned_to is Some));
            if !aflag {
                assert(fts[9] =~= opt_payload(w.assigned_to));
            }
            assert(fts[10] == num_text(priority_code(w.priority)));
            assert(fts[11] == num_text(status_code(w.status)));
            assert(fts[12] == num_text(w.progress as u64));
            lemma_word_date_round(creation_word);
            assert(fts[13] == num_text(w.creation_date as u64));
            lemma_word_date_round(start_word);
            assert(fts[14] == num_text(w.start_date as u64));
            assert(fts[15] == flag_text(w.due_date is Some));
            if uflag {
                assert(w.due_date is Some);
                assert(w.due_date->0 == (due_word as i64));
                lemma_word_date_round(due_word);
                assert(fts[16] == num_text(w.due_date->0 as u64));
            }
        }
        assert(bounded_view(w)) by {
            assert(fts[1].len() < pow16(16));
            assert(fts[7].len() < pow16(16));
            if dflag {
                assert(fts[3].len() < pow16(16));
            }
            if aflag {
                assert(fts[9].len() < pow16(16));
            }
        }
    }
    Ok(issue)
}

/// Parses a persisted record back into an issue.  Succeeds exactly on the
/// texts that `issue_record_text` writes, and recovers every field of the
/// recorded issue unchanged; any other text is rejected with `ParseError`.
pub fn parse_issue_record(s: &str) -> (r: Result<Issue, Error>)
    ensures
        r is Ok ==> r->Ok_0@.wf() && bounded_view(r->Ok_0@) && s@ == spec_record(r->Ok_0@),
        forall|v: IssueView| encodes(s@, v) ==> r is Ok && r->Ok_0@ == v,
{
    let ts = match split_items(s) {
        Ok(ts) => ts,
        Err(e) => {
            proof {
                assert forall|v: IssueView| !encodes(s@, v) by {
                    if encodes(s@, v) {
                        lemma_field_texts_bounded(v);
                        assert(s@ == items(field_texts(v)));
                    }
                }
            }
            return Err(e);
        },
    };
    let ghost fts = texts_of(ts@);
    proof {
        assert forall|v: IssueView| encodes(s@, v) implies v.wf() && fts == field_texts(v) by {
            lemma_field_texts_bounded(v);
            assert(s@ == items(field_texts(v)));
        }
    }
    match parse_fields(s, &ts) {
        Ok(issue) => {
            proof {
                assert(s@ == items(fts));
                assert(s@ == spec_record(issue@));
                assert forall|v: IssueView| encodes(s@, v) implies issue@ == v by {
                    assert(fts == field_texts(v));
                    lemma_field_texts_injective(v, issue@);
                }
            }
            Ok(issue)
        },
        Err(e) => {
            proof {
                assert forall|v: IssueView| !encodes(s@, v) by {
                    if encodes(s@, v) {
                        assert(v.wf() && fts == field_texts(v));
                        lemma_wf_valid(v);
                    }
                }
            }
            Err(e)
        },
    }
}

/// Law: every well-formed issue's record parses back to an issue whose
/// every field equals the original's.
pub proof fn lemma_record_round_trip(v: IssueView)
    requires
        v.wf(),
        bounded_view(v),
    ensures
        encodes(spec_record(v), v),
{
}

} // verus!

verus! {

/// Two framed sequences with the same framed text hold the same texts:
/// the frame boundaries are recoverable, so framing is injective.
pub proof fn lemma_items_injective(x: Seq<Seq<char>>, y: Seq<Seq<char>>)
    requires
        bounded_texts(x),
        bounded_texts(y),
        items(x) == items(y),
    ensures
        x =~~= y,
    decreases x.len(),
{
    if x.len() == 0 {
        if y.len() > 0 {
            lemma_hex_seq_len(16, y.first().len());
            assert(items(y).len() >= 16);
        }
    } else if y.len() == 0 {
        lemma_hex_seq_len(16, x.first().len());
        assert(items(x).len() >= 16);
    } else {
        let s = items(x);
        let x0 = x.first();
        let y0 = y.first();
        lemma_hex_seq_len(16, x0.len());
        lemma_hex_seq_len(16, y0.len());
        assert(hex_seq(16, x0.len()) =~= hex_seq(16, y0.len())) by {
            assert forall|j: int| 0 <= j < 16 implies hex_seq(16, x0.len())[j] == hex_seq(
                16,
                y0.len(),
            )[j] by {
                assert((item(x0) + items(x.drop_first()))[j] == hex_seq(16, x0.len())[j]);
                assert((item(y0) + items(y.drop_first()))[j] == hex_seq(16, y0.len())[j]);
            }
        }
        lemma_decode_encode(16, x0.len());
        lemma_decode_encode(16, y0.len());
        assert(x0.len() == y0.len());
        assert(x0 =~= y0) by {
            assert forall|j: int| 0 <= j < x0.len() implies x0[j] == y0[j] by {
                assert((item(x0) + items(x.drop_first()))[16 + j] == x0[j]);
                assert((item(y0) + items(y.drop_first()))[16 + j] == y0[j]);
            }
        }
        assert(items(x).len() == item(x0).len() + items(x.drop_first()).len());
        assert(items(y).len() == item(y0).len() + items(y.drop_first()).len());
        assert(items(x.drop_first()).len() == items(y.drop_first()).len());
        assert(items(x.drop_first()) =~= items(y.drop_first())) by {
            assert(item(x0).len() == item(y0).len());
            assert forall|j: int| 0 <= j < items(x.drop_first()).len() implies items(
                x.drop_first(),
            )[j] == items(y.drop_first())[j] by {
                assert((item(x0) + items(x.drop_first()))[item(x0).len() + j] == items(
                    x.drop_first(),
                )[j]);
                assert((item(y0) + items(y.drop_first()))[item(y0).len() + j] == items(
                    y.drop_first(),
                )[j]);
            }
        }
        assert(bounded_texts(x.drop_first())) by {
            assert forall|k: int| 0 <= k < x.drop_first().len() implies (
            #[trigger] x.drop_first()[k]).len() < pow16(16) by {
                assert(x.drop_first()[k] == x[k + 1]);
            }
        }
        assert(bounded_texts(y.drop_first())) by {
            assert forall|k: int| 0 <= k < y.drop_first().len() implies (
            #[trigger] y.drop_first()[k]).len() < pow16(16) by {
                assert(y.drop_first()[k] == y[k + 1]);
            }
        }
        lemma_items_injective(x.drop_first(), y.drop_first());
        assert(x =~~= y) by {
            assert forall|k: int| 0 <= k < x.len() implies x[k] =~= y[k] by {
                if k > 0 {
                    assert(x.drop_first()[k - 1] == x[k]);
                    assert(y.drop_first()[k - 1] == y[k]);
                    assert(x.drop_first() =~~= y.drop_first());
                }
            }
        }
    }
}

/// Law: the record text determines the issue: two well-formed views with
/// the same record are the same view, field for field.
pub proof fn lemma_spec_record_injective(a: IssueView, b: IssueView)
    requires
        bounded_view(a),
        bounded_view(b),
        spec_record(a) == spec_record(b),
    ensures
        a == b,
{
    lemma_field_texts_bounded(a);
    lemma_field_texts_bounded(b);
    lemma_items_injective(field_texts(a), field_texts(b));
    lemma_field_texts_injective(a, b);
}

} // verus!
