//! Recognising join events among console lines.
//!
//! Every statement here is made over the UTF-8 bytes of a line; the markers
//! that the classifier looks for are all ASCII.
use vstd::prelude::*;
use vstd::string::StringSliceAdditionalSpecFns;

verus! {

broadcast use vstd::utf8::group_utf8_lib;

/// The marker that opens the body of a chat message: `]: <`.
pub open spec fn chat_marker() -> Seq<u8> {
    seq![93u8, 58u8, 32u8, 60u8]
}

/// The marker that closes the header of a console line: `]: `.
pub open spec fn header_marker() -> Seq<u8> {
    seq![93u8, 58u8, 32u8]
}

/// The text that ends a join line: ` joined the game`.
pub open spec fn join_suffix() -> Seq<u8> {
    seq![
        32u8, 106u8, 111u8, 105u8, 110u8, 101u8, 100u8, 32u8, 116u8, 104u8, 101u8, 32u8, 103u8,
        97u8, 109u8, 101u8,
    ]
}

/// `pat` stands in `b` starting at byte `i`.
pub open spec fn occurs_at(b: Seq<u8>, pat: Seq<u8>, i: int) -> bool {
    0 <= i && i + pat.len() <= b.len() && b.subrange(i, i + pat.len()) == pat
}

pub open spec fn contains(b: Seq<u8>, pat: Seq<u8>) -> bool {
    exists|i: int| occurs_at(b, pat, i)
}

pub open spec fn ends_with(b: Seq<u8>, pat: Seq<u8>) -> bool {
    pat.len() <= b.len() && occurs_at(b, pat, b.len() - pat.len())
}

/// `i` is the first place where `pat` stands in `b`.
pub open spec fn is_first_occurrence(b: Seq<u8>, pat: Seq<u8>, i: int) -> bool {
    occurs_at(b, pat, i) && forall|j: int| 0 <= j < i ==> !occurs_at(b, pat, j)
}

pub open spec fn first_occurrence(b: Seq<u8>, pat: Seq<u8>) -> int {
    choose|i: int| is_first_occurrence(b, pat, i)
}

/// The line without its join suffix.
pub open spec fn before_suffix(line: Seq<u8>) -> Seq<u8> {
    line.subrange(0, line.len() - join_suffix().len())
}

/// The player name that a console line announces, if it is a join line.
///
/// A line holding the chat marker is never a join line. Otherwise it is one
/// when it ends with the join suffix and holds the header marker before that
/// suffix; the name is everything between the first header marker and the
/// suffix, taken as it stands.
pub open spec fn join_name(line: Seq<u8>) -> Option<Seq<u8>> {
    if contains(line, chat_marker()) || !ends_with(line, join_suffix()) {
        None
    } else {
        let head = before_suffix(line);
        if contains(head, header_marker()) {
            Some(head.subrange(first_occurrence(head, header_marker()) + 3, head.len() as int))
        } else {
            None
        }
    }
}

proof fn lemma_first_occurrence_unique(b: Seq<u8>, pat: Seq<u8>, i: int)
    requires
        is_first_occurrence(b, pat, i),
    ensures
        first_occurrence(b, pat) == i,
{
    let k = first_occurrence(b, pat);
    assert(is_first_occurrence(b, pat, k));
    if k < i {
        assert(!occurs_at(b, pat, k));
    }
    if i < k {
        assert(!occurs_at(b, pat, i));
    }
}

/// Whether `pat` stands in `b` at byte `i`.
fn occurs_at_exec(b: &[u8], pat: &[u8], i: usize) -> (r: bool)
    ensures
        r == occurs_at(b@, pat@, i as int),
{
    if pat.len() > b.len() || i > b.len() - pat.len() {
        return false;
    }
    let mut k: usize = 0;
    while k < pat.len()
        invariant
            k <= pat.len(),
            i + pat.len() <= b.len(),
            forall|j: int| 0 <= j < k ==> b@[i + j] == pat@[j],
        decreases pat.len() - k,
    {
        if b[i + k] != pat[k] {
            assert(b@.subrange(i as int, i + pat.len())[k as int] != pat@[k as int]);
            return false;
        }
        k = k + 1;
    }
    assert(b@.subrange(i as int, i + pat.len()) =~= pat@);
    true
}

/// The first place where `pat` stands within the first `limit` bytes of `b`.
fn find_first(b: &[u8], limit: usize, pat: &[u8]) -> (r: Option<usize>)
    requires
        limit <= b.len(),
        pat.len() > 0,
    ensures
        match r {
            Some(i) => is_first_occurrence(b@.subrange(0, limit as int), pat@, i as int),
            None => !contains(b@.subrange(0, limit as int), pat@),
        },
{
    let ghost head = b@.subrange(0, limit as int);
    if pat.len() > limit {
        assert forall|j: int| !occurs_at(head, pat@, j) by {}
        return None;
    }
    let mut i: usize = 0;
    while pat.len() <= limit - i
        invariant
            0 < pat.len() <= limit <= b.len(),
            i <= limit,
            head == b@.subrange(0, limit as int),
            forall|j: int| 0 <= j < i ==> !occurs_at(head, pat@, j),
        decreases limit - i,
    {
        let found = occurs_at_exec(b, pat, i);
        assert(head.subrange(i as int, i + pat.len()) =~= b@.subrange(i as int, i + pat.len()));
        if found {
            return Some(i);
        }
        i = i + 1;
    }
    assert forall|j: int| !occurs_at(head, pat@, j) by {
        if 0 <= j && j + pat.len() <= head.len() {
            assert(j < i);
        }
    }
    None
}

} // verus!

verus! {

fn chat_marker_bytes() -> (r: Vec<u8>)
    ensures
        r@ == chat_marker(),
{
    let r: Vec<u8> = vec![93u8, 58u8, 32u8, 60u8];
    assert(r@ =~= chat_marker());
    r
}

fn header_marker_bytes() -> (r: Vec<u8>)
    ensures
        r@ == header_marker(),
{
    let r: Vec<u8> = vec![93u8, 58u8, 32u8];
    assert(r@ =~= header_marker());
    r
}

fn join_suffix_bytes() -> (r: Vec<u8>)
    ensures
        r@ == join_suffix(),
{
    let r: Vec<u8> = vec![
        32u8, 106u8, 111u8, 105u8, 110u8, 101u8, 100u8, 32u8, 116u8, 104u8, 101u8, 32u8, 103u8,
        97u8, 109u8, 101u8,
    ];
    assert(r@ =~= join_suffix());
    r
}

/// In valid UTF-8, the byte after an ASCII byte starts a character.
proof fn lemma_boundary_after_ascii(bs: Seq<u8>)
    requires
        vstd::utf8::valid_utf8(bs),
        bs.len() >= 1,
        bs[0] < 128,
    ensures
        vstd::utf8::is_char_boundary(bs, 1),
{
    reveal_with_fuel(vstd::utf8::is_char_boundary, 2);
}

/// The name of the player that a console line announces as having joined,
/// or `None` when the line is no join line (see [`join_name`]).
pub fn player_joined_catch(s: &str) -> (r: Option<&str>)
    ensures
        match r {
            Some(name) => join_name(s.spec_bytes()) == Some(name.spec_bytes()),
            None => join_name(s.spec_bytes()) is None,
        },
{
    let b = s.as_bytes();
    let chat = chat_marker_bytes();
    let is_chat = find_first(b, b.len(), chat.as_slice()).is_some();
    assert(b@.subrange(0, b@.len() as int) =~= b@);
    if is_chat {
        return None;
    }
    let suffix = join_suffix_bytes();
    if b.len() < suffix.len() || !occurs_at_exec(b, suffix.as_slice(), b.len() - suffix.len()) {
        return None;
    }
    let end = b.len() - suffix.len();
    let header = header_marker_bytes();
    let k = match find_first(b, end, header.as_slice()) {
        None => return None,
        Some(k) => k,
    };
    let ghost line = s.spec_bytes();
    let ghost head_b = line.subrange(0, end as int);
    proof {
        assert(line.subrange(end as int, end + 16)[0] == 32u8);
        assert(line[end as int] == 32u8);
        vstd::utf8::encode_utf8_valid_utf8(s@);
        vstd::utf8::is_char_boundary_iff_not_is_continuation_byte(line, end as int);
        vstd::utf8::valid_utf8_split(line, end as int);
        assert(head_b.subrange(k as int, k + 3)[2] == 32u8);
        assert(head_b[k + 2] == 32u8);
        vstd::utf8::is_char_boundary_iff_not_is_continuation_byte(head_b, k + 2);
        assert(vstd::utf8::is_char_boundary(head_b, k + 2));
    }
    let (head, _) = s.split_at(end);
    let (_, rest) = head.split_at(k + 2);
    proof {
        assert(rest.spec_bytes()[0] == 32u8);
        lemma_boundary_after_ascii(rest.spec_bytes());
    }
    let (_, name) = rest.split_at(1);
    proof {
        lemma_first_occurrence_unique(head_b, header_marker(), k as int);
        assert(before_suffix(line) == head_b);
        assert(name.spec_bytes() =~= head_b.subrange(k + 3, head_b.len() as int));
    }
    Some(name)
}

} // verus!

verus! {

/// A line that holds the chat marker is never taken for a join line, even
/// when it ends with the join suffix.
pub proof fn lemma_chat_lines_never_join(line: Seq<u8>)
    requires
        contains(line, chat_marker()),
    ensures
        join_name(line) is None,
{
}

/// The console line that announces `name`: a stamp (such as `[10:00:00 INFO`),
/// the header marker, the name, and the join suffix.
pub open spec fn framed_join_line(stamp: Seq<u8>, name: Seq<u8>) -> Seq<u8> {
    stamp + header_marker() + name + join_suffix()
}

/// A join line gives back exactly the name it was built from (empty and
/// all-blank names included, nothing trimmed), as long as the stamp holds no
/// `]` and the line as a whole holds no chat marker.
pub proof fn lemma_framed_name_round_trip(stamp: Seq<u8>, name: Seq<u8>)
    requires
        forall|i: int| 0 <= i < stamp.len() ==> stamp[i] != 93u8,
        !contains(framed_join_line(stamp, name), chat_marker()),
    ensures
        join_name(framed_join_line(stamp, name)) == Some(name),
{
    let line = framed_join_line(stamp, name);
    let head = stamp + header_marker() + name;
    let at = stamp.len() as int;
    assert(line.subrange(line.len() - 16, line.len() as int) =~= join_suffix());
    assert(before_suffix(line) =~= head);
    assert(head.subrange(at, at + 3) =~= header_marker());
    assert forall|j: int| 0 <= j < at implies !occurs_at(head, header_marker(), j) by {
        assert(head.subrange(j, j + 3)[0] == head[j]);
    }
    assert(occurs_at(head, header_marker(), at));
    assert(contains(head, header_marker()));
    assert(ends_with(line, join_suffix()));
    lemma_first_occurrence_unique(head, header_marker(), at);
    assert(head.subrange(at + 3, head.len() as int) =~= name);
}

} // verus!
