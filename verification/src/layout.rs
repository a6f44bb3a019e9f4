use crate::disk::{DiskOp, DiskOpView};
use vstd::prelude::*;
use vstd::string::*;

verus! {

/// The decimal digit `d` as a character.
pub open spec fn digit_char(d: nat) -> char {
    if d == 0 {
        '0'
    } else if d == 1 {
        '1'
    } else if d == 2 {
        '2'
    } else if d == 3 {
        '3'
    } else if d == 4 {
        '4'
    } else if d == 5 {
        '5'
    } else if d == 6 {
        '6'
    } else if d == 7 {
        '7'
    } else if d == 8 {
        '8'
    } else {
        '9'
    }
}

/// The value of a decimal digit character, `None` for any other character.
pub open spec fn digit_value(c: char) -> Option<nat> {
    if c == '0' {
        Some(0nat)
    } else if c == '1' {
        Some(1nat)
    } else if c == '2' {
        Some(2nat)
    } else if c == '3' {
        Some(3nat)
    } else if c == '4' {
        Some(4nat)
    } else if c == '5' {
        Some(5nat)
    } else if c == '6' {
        Some(6nat)
    } else if c == '7' {
        Some(7nat)
    } else if c == '8' {
        Some(8nat)
    } else if c == '9' {
        Some(9nat)
    } else {
        None
    }
}

/// The decimal numeral of `n`, without sign or leading zeros.
pub open spec fn decimal(n: nat) -> Seq<char>
    decreases n,
{
    if n < 10 {
        seq![digit_char(n)]
    } else {
        decimal(n / 10).push(digit_char(n % 10))
    }
}

/// The number that a non-empty string of decimal digits denotes; `None` for
/// the empty string and for a string with any other character.
pub open spec fn digits_value(s: Seq<char>) -> Option<nat>
    decreases s.len(),
{
    if s.len() == 0 {
        None
    } else {
        match digit_value(s.last()) {
            None => None,
            Some(d) => if s.len() == 1 {
                Some(d)
            } else {
                match digits_value(s.drop_last()) {
                    Some(v) => Some(v * 10 + d),
                    None => None,
                }
            },
        }
    }
}

/// The id that an entry name denotes: decimal digits, optionally after one
/// `+`, with a value that fits 64 bits. Leading zeros are accepted.
pub open spec fn parse_id(name: Seq<char>) -> Option<u64> {
    let digits = if name.len() > 0 && name[0] == '+' {
        name.drop_first()
    } else {
        name
    };
    match digits_value(digits) {
        Some(v) => if v <= u64::MAX {
            Some(v as u64)
        } else {
            None
        },
        None => None,
    }
}

/// The numeral of a number denotes that number.
pub proof fn lemma_decimal_value(n: nat)
    ensures
        digits_value(decimal(n)) == Some(n),
        decimal(n).len() > 0,
        decimal(n)[0] != '+',
    decreases n,
{
    if n < 10 {
        assert(decimal(n).last() == digit_char(n));
    } else {
        lemma_decimal_value(n / 10);
        let s = decimal(n);
        assert(s.last() == digit_char(n % 10));
        assert(s.drop_last() =~= decimal(n / 10));
        assert(s[0] == decimal(n / 10)[0]);
    }
}

/// The name under which an id is filed parses back to the id.
pub proof fn lemma_name_round_trip(id: u64)
    ensures
        parse_id(decimal(id as nat)) == Some(id),
{
    lemma_decimal_value(id as nat);
}

/// Different ids are filed under different names.
pub proof fn lemma_names_distinct(a: u64, b: u64)
    requires
        a != b,
    ensures
        decimal(a as nat) != decimal(b as nat),
{
    lemma_name_round_trip(a);
    lemma_name_round_trip(b);
}

/// A string of digits is worth at least as much as each of its non-empty
/// prefixes, and each such prefix is a string of digits too.
proof fn lemma_prefix_value(s: Seq<char>, k: int)
    requires
        0 < k <= s.len(),
        digits_value(s) is Some,
    ensures
        digits_value(s.take(k)) is Some,
        digits_value(s.take(k))->0 <= digits_value(s)->0,
    decreases s.len(),
{
    if k == s.len() {
        assert(s.take(k) =~= s);
    } else {
        lemma_prefix_value(s.drop_last(), k);
        assert(s.drop_last().take(k) =~= s.take(k));
    }
}

fn digit_str(d: u64) -> (s: &'static str)
    requires
        d < 10,
    ensures
        s@ == seq![digit_char(d as nat)],
{
    proof {
        reveal_strlit("0");
        reveal_strlit("1");
        reveal_strlit("2");
        reveal_strlit("3");
        reveal_strlit("4");
        reveal_strlit("5");
        reveal_strlit("6");
        reveal_strlit("7");
        reveal_strlit("8");
        reveal_strlit("9");
    }
    let s = if d == 0 {
        "0"
    } else if d == 1 {
        "1"
    } else if d == 2 {
        "2"
    } else if d == 3 {
        "3"
    } else if d == 4 {
        "4"
    } else if d == 5 {
        "5"
    } else if d == 6 {
        "6"
    } else if d == 7 {
        "7"
    } else if d == 8 {
        "8"
    } else {
        "9"
    };
    assert(s@ =~= seq![digit_char(d as nat)]);
    s
}

fn push_decimal(n: u64, out: &mut String)
    ensures
        final(out)@ == old(out)@ + decimal(n as nat),
    decreases n,
{
    if n >= 10 {
        push_decimal(n / 10, out);
    }
    out.append(digit_str(n % 10));
    assert(out@ =~= old(out)@ + decimal(n as nat));
}

/// The name under which the entry of `id` is filed: its decimal numeral.
pub fn entry_name(id: u64) -> (name: String)
    ensures
        name@ == decimal(id as nat),
{
    let mut name = String::new();
    push_decimal(id, &mut name);
    assert(name@ =~= decimal(id as nat));
    name
}

fn digit_of(c: char) -> (d: Option<u64>)
    ensures
        match d {
            Some(v) => digit_value(c) == Some(v as nat) && v < 10,
            None => digit_value(c) is None,
        },
{
    if c == '0' {
        Some(0)
    } else if c == '1' {
        Some(1)
    } else if c == '2' {
        Some(2)
    } else if c == '3' {
        Some(3)
    } else if c == '4' {
        Some(4)
    } else if c == '5' {
        Some(5)
    } else if c == '6' {
        Some(6)
    } else if c == '7' {
        Some(7)
    } else if c == '8' {
        Some(8)
    } else if c == '9' {
        Some(9)
    } else {
        None
    }
}

/// The id that an entry name denotes, `None` if it denotes none.
pub fn parse_entry_name(name: &str) -> (id: Option<u64>)
    ensures
        id == parse_id(name@),
{
    let len = name.unicode_len();
    if len == 0 {
        return None;
    }
    let start: usize = if name.get_char(0) == '+' {
        1
    } else {
        0
    };
    let ghost digits = if start == 1 {
        name@.drop_first()
    } else {
        name@
    };
    if start == len {
        assert(digits.len() == 0);
        return None;
    }
    assert(digits =~= name@.subrange(start as int, len as int));
    let mut value: u64 = 0;
    let mut i: usize = start;
    while i < len
        invariant
            start <= i <= len,
            len == name@.len(),
            start <= 1,
            digits == name@.subrange(start as int, len as int),
            digits == (if name@.len() > 0 && name@[0] == '+' {
                name@.drop_first()
            } else {
                name@
            }),
            i > start ==> digits_value(digits.take(i - start)) == Some(value as nat),
            i == start ==> value == 0,
        decreases len - i,
    {
        let c = name.get_char(i);
        assert(digits[i - start] == c);
        let ghost prefix = digits.take(i - start + 1);
        assert(prefix.last() == c);
        assert(prefix.drop_last() =~= digits.take(i - start));
        match digit_of(c) {
            None => {
                proof {
                    if digits_value(digits) is Some {
                        lemma_prefix_value(digits, i - start + 1);
                    }
                }
                return None;
            },
            Some(d) => {
                if value > (u64::MAX - d) / 10 {
                    proof {
                        assert(digits_value(prefix) == Some((value * 10 + d) as nat));
                        if digits_value(digits) is Some {
                            lemma_prefix_value(digits, i - start + 1);
                        }
                    }
                    return None;
                }
                value = value * 10 + d;
            },
        }
        i += 1;
    }
    assert(digits.take(len - start) =~= digits);
    Some(value)
}

/// The names of a listing or the components of a path as character strings.
pub open spec fn name_views(names: Seq<String>) -> Seq<Seq<char>> {
    names.map_values(|name: String| name@)
}

/// Where the payloads are kept, below the root of the medium.
pub open spec fn payloads_location() -> Seq<Seq<char>> {
    seq!["Payloads"@]
}

/// Where the payload `id` is kept.
pub open spec fn payload_location(id: u64) -> Seq<Seq<char>> {
    seq!["Payloads"@, decimal(id as nat)]
}

/// Where the sessions of the id-addressed store are kept.
pub open spec fn sessions_location() -> Seq<Seq<char>> {
    seq!["Sessions"@]
}

/// Where all that belongs to one session of the id-addressed store is kept.
pub open spec fn session_location(session: Seq<char>) -> Seq<Seq<char>> {
    seq!["Sessions"@, session]
}

/// Where the message index of a session is kept.
pub open spec fn messages_location(session: Seq<char>) -> Seq<Seq<char>> {
    seq!["Sessions"@, session, "Messages"@]
}

/// Where the entry `key` of a session's message index is kept.
pub open spec fn message_location(session: Seq<char>, key: u64) -> Seq<Seq<char>> {
    seq!["Sessions"@, session, "Messages"@, decimal(key as nat)]
}

/// Where an overwrite store keeps all that a session holds.
pub open spec fn batch_location(session: Seq<char>) -> Seq<Seq<char>> {
    seq![session]
}

/// What an operation stores or removes.
pub open spec fn op_location(op: DiskOpView) -> Seq<Seq<char>> {
    match op {
        DiskOpView::PutMessage { session, key, .. } => message_location(session, key),
        DiskOpView::PutPayloadIfAbsent { id, .. } => payload_location(id),
        DiskOpView::DeletePayload { id } => payload_location(id),
        DiskOpView::PutSession { session, .. } => batch_location(session),
    }
}

/// Payloads with different ids are kept apart.
pub proof fn lemma_payloads_apart(a: u64, b: u64)
    requires
        a != b,
    ensures
        payload_location(a) != payload_location(b),
{
    lemma_names_distinct(a, b);
    assert(payload_location(a)[1] == decimal(a as nat));
    assert(payload_location(b)[1] == decimal(b as nat));
}

/// Entries of different sessions, or with different keys, are kept apart,
/// and no entry is kept where a payload is.
pub proof fn lemma_messages_apart(
    session: Seq<char>,
    key: u64,
    other_session: Seq<char>,
    other_key: u64,
    id: u64,
)
    ensures
        message_location(session, key) == message_location(other_session, other_key) ==> session
            == other_session && key == other_key,
        message_location(session, key) != payload_location(id),
{
    if message_location(session, key) == message_location(other_session, other_key) {
        assert(message_location(session, key)[1] == session);
        assert(message_location(other_session, other_key)[1] == other_session);
        assert(message_location(session, key)[3] == decimal(key as nat));
        assert(message_location(other_session, other_key)[3] == decimal(other_key as nat));
        if key != other_key {
            lemma_names_distinct(key, other_key);
        }
    }
    assert(message_location(session, key).len() == 4);
    assert(payload_location(id).len() == 2);
}

/// The path of the payloads, component by component.
pub fn payloads_path() -> (path: Vec<String>)
    ensures
        name_views(path@) == payloads_location(),
{
    let mut path: Vec<String> = Vec::new();
    path.push("Payloads".to_owned());
    assert(name_views(path@) =~= payloads_location());
    path
}

/// The path of the payload `id`, component by component.
pub fn payload_path(id: u64) -> (path: Vec<String>)
    ensures
        name_views(path@) == payload_location(id),
{
    let mut path: Vec<String> = Vec::new();
    path.push("Payloads".to_owned());
    path.push(entry_name(id));
    assert(name_views(path@) =~= payload_location(id));
    path
}

/// The path of the sessions of the id-addressed store.
pub fn sessions_path() -> (path: Vec<String>)
    ensures
        name_views(path@) == sessions_location(),
{
    let mut path: Vec<String> = Vec::new();
    path.push("Sessions".to_owned());
    assert(name_views(path@) =~= sessions_location());
    path
}

/// The path of one session of the id-addressed store.
pub fn session_path(session: &str) -> (path: Vec<String>)
    ensures
        name_views(path@) == session_location(session@),
{
    let mut path: Vec<String> = Vec::new();
    path.push("Sessions".to_owned());
    path.push(session.to_owned());
    assert(name_views(path@) =~= session_location(session@));
    path
}

/// The path of the message index of a session.
pub fn messages_path(session: &str) -> (path: Vec<String>)
    ensures
        name_views(path@) == messages_location(session@),
{
    let mut path: Vec<String> = Vec::new();
    path.push("Sessions".to_owned());
    path.push(session.to_owned());
    path.push("Messages".to_owned());
    assert(name_views(path@) =~= messages_location(session@));
    path
}

/// The path of the entry `key` of a session's message index.
pub fn message_path(session: &str, key: u64) -> (path: Vec<String>)
    ensures
        name_views(path@) == message_location(session@, key),
{
    let mut path: Vec<String> = Vec::new();
    path.push("Sessions".to_owned());
    path.push(session.to_owned());
    path.push("Messages".to_owned());
    path.push(entry_name(key));
    assert(name_views(path@) =~= message_location(session@, key));
    path
}

/// The path at which an overwrite store keeps a session.
pub fn batch_path(session: &str) -> (path: Vec<String>)
    ensures
        name_views(path@) == batch_location(session@),
{
    let mut path: Vec<String> = Vec::new();
    path.push(session.to_owned());
    assert(name_views(path@) =~= batch_location(session@));
    path
}

/// The path of what an operation stores or removes.
pub fn op_path(op: &DiskOp) -> (path: Vec<String>)
    ensures
        name_views(path@) == op_location(op@),
{
    match op {
        DiskOp::PutMessage { session, key, .. } => message_path(session.as_str(), *key),
        DiskOp::PutPayloadIfAbsent { id, .. } => payload_path(*id),
        DiskOp::DeletePayload { id } => payload_path(*id),
        DiskOp::PutSession { session, .. } => batch_path(session.as_str()),
    }
}

} // verus!
