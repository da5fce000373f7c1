//! Literal IP addresses.
use crate::text::{chars_of, decimal, digit_char};
use vstd::prelude::*;

verus! {

/// The position of the first `mark` at or after `from`, or the end.
pub open spec fn mark_at(s: Seq<char>, mark: char, from: int) -> int
    decreases s.len() - from,
{
    if from >= s.len() || s[from] == mark {
        from
    } else {
        mark_at(s, mark, from + 1)
    }
}

/// The parts of a text between marks, from position `from` on.
pub open spec fn parts_from(s: Seq<char>, mark: char, from: int) -> Seq<Seq<char>>
    decreases s.len() - from,
{
    let end = mark_at(s, mark, from);
    if from <= end < s.len() {
        seq![s.subrange(from, end)] + parts_from(s, mark, end + 1)
    } else {
        seq![s.subrange(from, s.len() as int)]
    }
}

/// The parts of a text between marks. A text without marks is one part.
pub open spec fn parts(s: Seq<char>, mark: char) -> Seq<Seq<char>> {
    parts_from(s, mark, 0)
}

/// The value of a digit in either case.
pub open spec fn hex_digit(c: char) -> Option<nat> {
    if '0' <= c <= '9' {
        Some((c as u32 - '0' as u32) as nat)
    } else if 'a' <= c <= 'f' {
        Some((c as u32 - 'a' as u32 + 10) as nat)
    } else if 'A' <= c <= 'F' {
        Some((c as u32 - 'A' as u32 + 10) as nat)
    } else {
        None
    }
}

/// The number that digits of this base spell, most significant first; `None` where
/// a character is no such digit.
pub open spec fn digits_in(s: Seq<char>, base: nat) -> Option<nat>
    decreases s.len(),
{
    if s.len() == 0 {
        Some(0)
    } else {
        match (digits_in(s.drop_last(), base), hex_digit(s.last())) {
            (Some(head), Some(digit)) => if digit < base {
                Some(head * base + digit)
            } else {
                None
            },
            _ => None,
        }
    }
}

/// One part of a dotted address: up to three decimal digits without a leading
/// zero, at most 255.
pub open spec fn octet(s: Seq<char>) -> Option<nat> {
    if 1 <= s.len() <= 3 && (s.len() > 1 ==> s[0] != '0') {
        match digits_in(s, 10) {
            Some(n) => if n <= 255 {
                Some(n)
            } else {
                None
            },
            None => None,
        }
    } else {
        None
    }
}

/// The four numbers of a dotted address.
pub open spec fn dotted(s: Seq<char>) -> Option<(nat, nat, nat, nat)> {
    let fields = parts(s, '.');
    if fields.len() == 4 {
        match (octet(fields[0]), octet(fields[1]), octet(fields[2]), octet(fields[3])) {
            (Some(a), Some(b), Some(c), Some(d)) => Some((a, b, c, d)),
            _ => None,
        }
    } else {
        None
    }
}

/// One group of a colon-separated address: up to four hexadecimal digits.
pub open spec fn group(s: Seq<char>) -> Option<nat> {
    if 1 <= s.len() <= 4 {
        digits_in(s, 16)
    } else {
        None
    }
}

/// The groups that the first `n` parts spell.
pub open spec fn groups_of(fields: Seq<Seq<char>>, n: int) -> Option<Seq<nat>>
    decreases n,
{
    if n <= 0 {
        Some(Seq::empty())
    } else {
        match (groups_of(fields, n - 1), group(fields[n - 1])) {
            (Some(head), Some(next)) => Some(head.push(next)),
            _ => None,
        }
    }
}

/// The groups of a colon-separated run. The empty run has none; where `quad` is
/// set, the last part may be a dotted address, which stands for two groups.
pub open spec fn run_groups(s: Seq<char>, quad: bool) -> Option<Seq<nat>> {
    let fields = parts(s, ':');
    let last = fields.last();
    if s.len() == 0 {
        Some(Seq::empty())
    } else if quad && dotted(last) is Some {
        let (a, b, c, d) = dotted(last)->0;
        match groups_of(fields, fields.len() - 1) {
            Some(head) => Some(head.push(a * 256 + b).push(c * 256 + d)),
            None => None,
        }
    } else {
        groups_of(fields, fields.len() as int)
    }
}

/// Where a `::` stands first, or the end.
pub open spec fn gap_at(s: Seq<char>, from: int) -> int
    decreases s.len() - from,
{
    if from + 1 >= s.len() {
        s.len() as int
    } else if s[from] == ':' && s[from + 1] == ':' {
        from
    } else {
        gap_at(s, from + 1)
    }
}

/// The eight groups of an IPv6 address. A `::` stands for one or more groups of
/// zeros, and may occur once.
pub open spec fn ipv6_groups(s: Seq<char>) -> Option<Seq<nat>> {
    let gap = gap_at(s, 0);
    if gap < s.len() {
        match (run_groups(s.take(gap), false), run_groups(s.skip(gap + 2), true)) {
            (Some(head), Some(tail)) => if head.len() + tail.len() <= 7 {
                Some(head + Seq::new((8 - head.len() - tail.len()) as nat, |i: int| 0nat) + tail)
            } else {
                None
            },
            _ => None,
        }
    } else {
        match run_groups(s, true) {
            Some(groups) => if groups.len() == 8 {
                Some(groups)
            } else {
                None
            },
            None => None,
        }
    }
}

/// Whether a text is a literal loopback address: `127.x.x.x`, or `::1` in any
/// spelling.
pub open spec fn is_loopback_literal(s: Seq<char>) -> bool {
    match dotted(s) {
        Some((first, _, _, _)) => first == 127,
        None => match ipv6_groups(s) {
            Some(groups) => groups == seq![0nat, 0, 0, 0, 0, 0, 0, 1],
            None => false,
        },
    }
}

proof fn lemma_mark_at(s: Seq<char>, mark: char, from: int)
    requires
        0 <= from <= s.len(),
    ensures
        from <= mark_at(s, mark, from) <= s.len(),
    decreases s.len() - from,
{
    if from < s.len() && s[from] != mark {
        lemma_mark_at(s, mark, from + 1);
    }
}

/// Cut a text at its marks.
fn split(chars: &Vec<char>, mark: char) -> (fields: Vec<Vec<char>>)
    ensures
        fields@.len() == parts(chars@, mark).len(),
        forall|i: int| 0 <= i < fields@.len() ==> (#[trigger] fields@[i])@ == parts(chars@, mark)[i],
{
    let mut fields: Vec<Vec<char>> = Vec::new();
    let mut field: Vec<char> = Vec::new();
    let ghost all = parts(chars@, mark);
    let ghost mut from: int = 0;
    let mut i: usize = 0;
    proof {
        assert(field@ =~= chars@.subrange(0, 0));
        assert(Seq::<Seq<char>>::empty() + parts_from(chars@, mark, 0) =~= all);
    }
    while i < chars.len()
        invariant
            0 <= from <= i <= chars@.len(),
            all == parts(chars@, mark),
            field@ == chars@.subrange(from, i as int),
            mark_at(chars@, mark, i as int) == mark_at(chars@, mark, from),
            all == Seq::new(fields@.len(), |k: int| fields@[k]@) + parts_from(chars@, mark, from),
        decreases chars@.len() - i,
    {
        if chars[i] == mark {
            let ghost before = Seq::new(fields@.len(), |k: int| fields@[k]@);
            let mut done: Vec<char> = Vec::new();
            std::mem::swap(&mut done, &mut field);
            fields.push(done);
            proof {
                assert(mark_at(chars@, mark, from) == i);
                let after = Seq::new(fields@.len(), |k: int| fields@[k]@);
                assert(after =~= before.push(chars@.subrange(from, i as int)));
                assert(all =~= after + parts_from(chars@, mark, i + 1));
                from = i + 1;
                assert(field@ =~= chars@.subrange(from, i + 1));
            }
        } else {
            field.push(chars[i]);
            assert(field@ =~= chars@.subrange(from, i + 1));
        }
        i += 1;
    }
    let ghost before = Seq::new(fields@.len(), |k: int| fields@[k]@);
    fields.push(field);
    proof {
        assert(mark_at(chars@, mark, from) == chars@.len());
        let after = Seq::new(fields@.len(), |k: int| fields@[k]@);
        assert(after =~= before.push(chars@.subrange(from, chars@.len() as int)));
        assert(all =~= after);
        assert forall|k: int| 0 <= k < fields@.len() implies (#[trigger] fields@[k])@
            == all[k] by {
            assert(after[k] == fields@[k]@);
        }
    }
    fields
}

fn digit_value(c: char) -> (value: Option<u32>)
    ensures
        match value {
            Some(n) => hex_digit(c) == Some(n as nat) && n < 16,
            None => hex_digit(c) is None,
        },
{
    if c >= '0' && c <= '9' {
        Some(c as u32 - '0' as u32)
    } else if c >= 'a' && c <= 'f' {
        Some(c as u32 - 'a' as u32 + 10)
    } else if c >= 'A' && c <= 'F' {
        Some(c as u32 - 'A' as u32 + 10)
    } else {
        None
    }
}

/// A prefix that spells no number spoils the whole.
proof fn lemma_bad_digit(s: Seq<char>, base: nat, n: int)
    requires
        0 <= n <= s.len(),
        digits_in(s.take(n), base) is None,
    ensures
        digits_in(s, base) is None,
    decreases s.len() - n,
{
    if n < s.len() {
        assert(s.take(n + 1).drop_last() =~= s.take(n));
        lemma_bad_digit(s, base, n + 1);
    } else {
        assert(s.take(n) =~= s);
    }
}

/// The number that up to four digits spell.
fn number(chars: &Vec<char>, base: u32) -> (value: Option<u32>)
    requires
        2 <= base <= 16,
        chars@.len() <= 4,
    ensures
        match value {
            Some(n) => digits_in(chars@, base as nat) == Some(n as nat),
            None => digits_in(chars@, base as nat) is None,
        },
{
    let mut value: u32 = 0;
    let mut i: usize = 0;
    assert(chars@.take(0) =~= Seq::empty());
    while i < chars.len()
        invariant
            0 <= i <= chars@.len() <= 4,
            2 <= base <= 16,
            digits_in(chars@.take(i as int), base as nat) == Some(value as nat),
            i == 0 ==> value < 1,
            i == 1 ==> value < 16,
            i == 2 ==> value < 256,
            i == 3 ==> value < 4096,
            i == 4 ==> value < 65536,
        decreases chars@.len() - i,
    {
        proof {
            assert(chars@.take(i + 1).drop_last() =~= chars@.take(i as int));
            assert(chars@.take(i + 1).last() == chars@[i as int]);
            assert(value * base <= value * 16) by (nonlinear_arith)
                requires
                    base <= 16,
            ;
        }
        match digit_value(chars[i]) {
            Some(digit) => {
                if digit >= base {
                    proof {
                        lemma_bad_digit(chars@, base as nat, i + 1);
                    }
                    return None;
                }
                value = value * base + digit;
            },
            None => {
                proof {
                    lemma_bad_digit(chars@, base as nat, i + 1);
                }
                return None;
            },
        }
        i += 1;
    }
    assert(chars@.take(i as int) =~= chars@);
    Some(value)
}

fn octet_value(chars: &Vec<char>) -> (value: Option<u32>)
    ensures
        match value {
            Some(n) => octet(chars@) == Some(n as nat) && n <= 255,
            None => octet(chars@) is None,
        },
{
    if chars.len() < 1 || chars.len() > 3 || (chars.len() > 1 && chars[0] == '0') {
        return None;
    }
    match number(chars, 10) {
        Some(n) => if n <= 255 {
            Some(n)
        } else {
            None
        },
        None => None,
    }
}

fn dotted_value(chars: &Vec<char>) -> (value: Option<(u32, u32, u32, u32)>)
    ensures
        match value {
            Some((a, b, c, d)) => {
                &&& dotted(chars@) == Some((a as nat, b as nat, c as nat, d as nat))
                &&& a <= 255 && b <= 255 && c <= 255 && d <= 255
            },
            None => dotted(chars@) is None,
        },
{
    let fields = split(chars, '.');
    if fields.len() != 4 {
        return None;
    }
    assert(fields@[0]@ == parts(chars@, '.')[0]);
    assert(fields@[1]@ == parts(chars@, '.')[1]);
    assert(fields@[2]@ == parts(chars@, '.')[2]);
    assert(fields@[3]@ == parts(chars@, '.')[3]);
    match (
        octet_value(&fields[0]),
        octet_value(&fields[1]),
        octet_value(&fields[2]),
        octet_value(&fields[3]),
    ) {
        (Some(a), Some(b), Some(c), Some(d)) => Some((a, b, c, d)),
        _ => None,
    }
}

/// A part that is no group spoils the whole.
proof fn lemma_bad_group(fields: Seq<Seq<char>>, m: int, n: int)
    requires
        0 <= m <= n,
        groups_of(fields, m) is None,
    ensures
        groups_of(fields, n) is None,
    decreases n - m,
{
    if m < n {
        lemma_bad_group(fields, m, n - 1);
    }
}

/// Numbers as the model has them.
pub open spec fn naturals(values: Seq<u32>) -> Seq<nat> {
    Seq::new(values.len(), |i: int| values[i] as nat)
}

fn first_groups(fields: &Vec<Vec<char>>, n: usize) -> (groups: Option<Vec<u32>>)
    requires
        n <= fields@.len(),
    ensures
        match groups {
            Some(groups) => groups_of(Seq::new(fields@.len(), |k: int| fields@[k]@), n as int)
                == Some(naturals(groups@)),
            None => groups_of(Seq::new(fields@.len(), |k: int| fields@[k]@), n as int) is None,
        },
{
    let ghost all = Seq::new(fields@.len(), |k: int| fields@[k]@);
    let mut groups: Vec<u32> = Vec::new();
    let mut i: usize = 0;
    assert(naturals(groups@) =~= Seq::empty());
    while i < n
        invariant
            0 <= i <= n <= fields@.len(),
            all == Seq::new(fields@.len(), |k: int| fields@[k]@),
            groups_of(all, i as int) == Some(naturals(groups@)),
        decreases n - i,
    {
        assert(all[i as int] == fields@[i as int]@);
        let value = if fields[i].len() < 1 || fields[i].len() > 4 {
            None
        } else {
            number(&fields[i], 16)
        };
        match value {
            Some(value) => {
                let ghost before = naturals(groups@);
                groups.push(value);
                assert(naturals(groups@) =~= before.push(value as nat));
            },
            None => {
                proof {
                    lemma_bad_group(all, i + 1, n as int);
                }
                return None;
            },
        }
        i += 1;
    }
    Some(groups)
}

fn run_values(chars: &Vec<char>, quad: bool) -> (groups: Option<Vec<u32>>)
    ensures
        match groups {
            Some(groups) => run_groups(chars@, quad) == Some(naturals(groups@)),
            None => run_groups(chars@, quad) is None,
        },
{
    if chars.len() == 0 {
        let none: Vec<u32> = Vec::new();
        assert(naturals(none@) =~= Seq::empty());
        return Some(none);
    }
    let fields = split(chars, ':');
    let ghost all = parts(chars@, ':');
    proof {
        lemma_parts_some(chars@, ':', 0);
        assert(Seq::new(fields@.len(), |k: int| fields@[k]@) =~= all);
    }
    let n: usize = fields.len();
    if quad {
        assert(fields@[n - 1]@ == all.last());
        if let Some((a, b, c, d)) = dotted_value(&fields[n - 1]) {
            return match first_groups(&fields, n - 1) {
                Some(head) => {
                    let ghost before = naturals(head@);
                    let mut groups = head;
                    groups.push(a * 256 + b);
                    groups.push(c * 256 + d);
                    assert(naturals(groups@) =~= before.push((a * 256 + b) as nat).push(
                        (c * 256 + d) as nat,
                    ));
                    Some(groups)
                },
                None => None,
            };
        }
    }
    first_groups(&fields, n)
}

proof fn lemma_parts_some(s: Seq<char>, mark: char, from: int)
    requires
        0 <= from <= s.len(),
    ensures
        parts_from(s, mark, from).len() >= 1,
    decreases s.len() - from,
{
    lemma_mark_at(s, mark, from);
    let end = mark_at(s, mark, from);
    if end < s.len() {
        lemma_parts_some(s, mark, end + 1);
    }
}

fn find_gap(chars: &Vec<char>) -> (gap: usize)
    ensures
        gap == gap_at(chars@, 0),
        gap <= chars@.len(),
        gap < chars@.len() ==> gap + 2 <= chars@.len(),
{
    let n: usize = chars.len();
    let mut i: usize = 0;
    while i < n && i + 1 < n
        invariant
            n == chars@.len(),
            0 <= i <= n,
            gap_at(chars@, i as int) == gap_at(chars@, 0),
        decreases n - i,
    {
        if chars[i] == ':' && chars[i + 1] == ':' {
            return i;
        }
        i += 1;
    }
    n
}

fn slice(chars: &Vec<char>, from: usize, to: usize) -> (part: Vec<char>)
    requires
        from <= to <= chars@.len(),
    ensures
        part@ == chars@.subrange(from as int, to as int),
{
    vstd::slice::slice_to_vec(vstd::slice::slice_subrange(chars.as_slice(), from, to))
}

/// Whether the groups are those of the loopback address: zeros and a last one.
fn ends_in_one(groups: &Vec<u32>) -> (found: bool)
    ensures
        found == (groups@.len() >= 1 && naturals(groups@) == Seq::new(
            (groups@.len() - 1) as nat,
            |i: int| 0nat,
        ).push(1)),
{
    let n: usize = groups.len();
    let ghost wanted = Seq::new((groups@.len() - 1) as nat, |i: int| 0nat).push(1);
    if n == 0 {
        return false;
    }
    if groups[n - 1] != 1 {
        assert(naturals(groups@)[n - 1] != wanted[n - 1]);
        return false;
    }
    let mut i: usize = 0;
    while i < n - 1
        invariant
            n == groups@.len(),
            0 <= i <= n - 1,
            wanted == Seq::new((groups@.len() - 1) as nat, |i: int| 0nat).push(1),
            groups@[n - 1] == 1,
            forall|k: int| 0 <= k < i ==> groups@[k] == 0,
        decreases n - i,
    {
        if groups[i] != 0 {
            assert(naturals(groups@)[i as int] != wanted[i as int]);
            return false;
        }
        i += 1;
    }
    assert(naturals(groups@) =~= wanted);
    true
}

/// Whether all groups are zero.
fn all_zero(groups: &Vec<u32>) -> (found: bool)
    ensures
        found == (naturals(groups@) == Seq::new(groups@.len(), |i: int| 0nat)),
{
    let mut i: usize = 0;
    while i < groups.len()
        invariant
            0 <= i <= groups@.len(),
            forall|k: int| 0 <= k < i ==> groups@[k] == 0,
        decreases groups@.len() - i,
    {
        if groups[i] != 0 {
            assert(naturals(groups@)[i as int] != Seq::new(groups@.len(), |i: int| 0nat)[i as int]);
            return false;
        }
        i += 1;
    }
    assert(naturals(groups@) =~= Seq::new(groups@.len(), |i: int| 0nat));
    true
}

/// So many zeros.
spec fn zeros(n: int) -> Seq<nat> {
    Seq::new(n as nat, |i: int| 0nat)
}

/// The groups of the loopback address.
spec fn loopback_groups() -> Seq<nat> {
    seq![0nat, 0, 0, 0, 0, 0, 0, 1]
}

/// An abbreviated address is the loopback address where all before the gap is zero,
/// and what follows it ends in one and is zero otherwise.
proof fn lemma_abbreviated_loopback(head: Seq<nat>, tail: Seq<nat>)
    requires
        head.len() + tail.len() <= 7,
    ensures
        (head + zeros(8 - head.len() - tail.len()) + tail == loopback_groups()) <==> {
            &&& head == zeros(head.len() as int)
            &&& tail.len() >= 1
            &&& tail == zeros(tail.len() - 1).push(1)
        },
{
    let whole = head + zeros(8 - head.len() - tail.len()) + tail;
    if head == zeros(head.len() as int) && tail.len() >= 1 && tail == zeros(
        tail.len() - 1,
    ).push(1) {
        assert(whole =~= loopback_groups());
    }
    if whole == loopback_groups() {
        assert forall|i: int| 0 <= i < head.len() implies head[i] == 0 by {
            assert(whole[i] == head[i]);
        }
        assert(head =~= zeros(head.len() as int));
        if tail.len() == 0 {
            assert(whole[7] == 0);
        }
        assert forall|i: int| 0 <= i < tail.len() implies tail[i] == loopback_groups()[8
            - tail.len() + i] by {
            assert(whole[8 - tail.len() + i] == tail[i]);
        }
        assert(tail =~= zeros(tail.len() - 1).push(1));
    }
}

/// Whether a host is a literal loopback address.
pub fn loopback_literal(host: &str) -> (loopback: bool)
    ensures
        loopback == is_loopback_literal(host@),
{
    let chars = chars_of(host);
    if let Some((first, _, _, _)) = dotted_value(&chars) {
        return first == 127;
    }
    let gap: usize = find_gap(&chars);
    if gap < chars.len() {
        let head_text = slice(&chars, 0, gap);
        let tail_text = slice(&chars, gap + 2, chars.len());
        assert(head_text@ =~= chars@.take(gap as int));
        assert(tail_text@ =~= chars@.skip(gap + 2));
        return match (run_values(&head_text, false), run_values(&tail_text, true)) {
            (Some(head), Some(tail)) => {
                if head.len() > 7 || tail.len() > 7 || head.len() + tail.len() > 7 {
                    return false;
                }
                let found: bool = all_zero(&head) && ends_in_one(&tail);
                proof {
                    lemma_abbreviated_loopback(naturals(head@), naturals(tail@));
                }
                found
            },
            _ => false,
        };
    }
    match run_values(&chars, true) {
        Some(groups) => {
            let found: bool = groups.len() == 8 && ends_in_one(&groups);
            proof {
                let wanted = Seq::new(7, |i: int| 0nat).push(1);
                assert(wanted =~= loopback_groups());
            }
            found
        },
        None => false,
    }
}

proof fn lemma_first_mark(s: Seq<char>, mark: char, from: int, end: int)
    requires
        0 <= from <= end <= s.len(),
        forall|i: int| from <= i < end ==> #[trigger] s[i] != mark,
        end < s.len() ==> s[end] == mark,
    ensures
        mark_at(s, mark, from) == end,
    decreases end - from,
{
    if from < end {
        assert(s[from] != mark);
        lemma_first_mark(s, mark, from + 1, end);
    }
}

/// The parts from `from` on: up to the mark at `end`, and the parts after it.
proof fn lemma_part(s: Seq<char>, mark: char, from: int, end: int)
    requires
        0 <= from <= end < s.len(),
        forall|i: int| from <= i < end ==> #[trigger] s[i] != mark,
        s[end] == mark,
    ensures
        parts_from(s, mark, from) == seq![s.subrange(from, end)] + parts_from(s, mark, end + 1),
{
    lemma_first_mark(s, mark, from, end);
}

proof fn lemma_last_part(s: Seq<char>, mark: char, from: int)
    requires
        0 <= from <= s.len(),
        forall|i: int| from <= i < s.len() ==> #[trigger] s[i] != mark,
    ensures
        parts_from(s, mark, from) == seq![s.subrange(from, s.len() as int)],
{
    lemma_first_mark(s, mark, from, s.len() as int);
}

/// What the parts from `from` on are made of.
proof fn lemma_parts_split(s: Seq<char>, mark: char, from: int)
    requires
        0 <= from <= s.len(),
    ensures
        ({
            let end = mark_at(s, mark, from);
            let fields = parts_from(s, mark, from);
            &&& from <= end <= s.len()
            &&& forall|i: int| from <= i < end ==> #[trigger] s[i] != mark
            &&& fields.len() >= 1
            &&& fields[0] == s.subrange(from, end)
            &&& end < s.len() ==> s[end] == mark && fields.len() == 1 + parts_from(
                s,
                mark,
                end + 1,
            ).len() && fields.skip(1) == parts_from(s, mark, end + 1)
            &&& end == s.len() ==> fields.len() == 1
        }),
    decreases s.len() - from,
{
    if from < s.len() && s[from] != mark {
        lemma_parts_split(s, mark, from + 1);
    }
    let end = mark_at(s, mark, from);
    if end < s.len() {
        let rest = parts_from(s, mark, end + 1);
        assert((seq![s.subrange(from, end)] + rest).skip(1) =~= rest);
    }
}

/// A number up to 255 in decimal is an octet.
proof fn lemma_octet_of_decimal(n: nat)
    requires
        n <= 255,
    ensures
        octet(decimal(n)) == Some(n),
        forall|i: int| 0 <= i < decimal(n).len() ==> '0' <= #[trigger] decimal(n)[i] <= '9',
        decimal(n).len() >= 1,
{
    reveal_with_fuel(decimal, 3);
    reveal_with_fuel(digits_in, 4);
    let s = decimal(n);
    if n < 10 {
        assert(s.drop_last() =~= Seq::<char>::empty());
    } else if n < 100 {
        assert(s.drop_last() =~= decimal(n / 10));
        assert(decimal(n / 10).drop_last() =~= Seq::<char>::empty());
        assert(s[0] == digit_char((n / 10) as int));
    } else {
        assert(s.drop_last() =~= decimal(n / 10));
        assert(decimal(n / 10).drop_last() =~= decimal(n / 100));
        assert((n / 10) / 10 == n / 100);
        assert(decimal(n / 100).drop_last() =~= Seq::<char>::empty());
        assert(s[0] == digit_char((n / 100) as int));
        assert(s[1] == digit_char(((n / 10) % 10) as int));
    }
}

/// An octet is written in one way only.
proof fn lemma_decimal_of_octet(s: Seq<char>)
    requires
        octet(s) is Some,
    ensures
        s == decimal(octet(s)->0),
        octet(s)->0 <= 255,
{
    reveal_with_fuel(decimal, 3);
    reveal_with_fuel(digits_in, 4);
    let n = octet(s)->0;
    let digit = |i: int| (s[i] as u32 - '0' as u32);
    let t = s.drop_last();
    if s.len() == 1 {
        assert(s =~= seq![digit_char(n as int)]);
    } else if s.len() == 2 {
        assert(t =~= seq![s[0]]);
        assert(t.drop_last() =~= Seq::<char>::empty());
        assert(n == digit(0) * 10 + digit(1));
        assert(n / 10 == digit(0));
        assert(s =~= seq![digit_char(digit(0) as int), digit_char(digit(1) as int)]);
        assert(decimal(n) =~= s);
    } else {
        let u = t.drop_last();
        assert(t =~= seq![s[0], s[1]]);
        assert(u =~= seq![s[0]]);
        assert(u.drop_last() =~= Seq::<char>::empty());
        assert(n == (digit(0) * 10 + digit(1)) * 10 + digit(2));
        assert(n / 10 == digit(0) * 10 + digit(1));
        assert((n / 10) / 10 == digit(0));
        assert(s =~= seq![
            digit_char(digit(0) as int),
            digit_char(digit(1) as int),
            digit_char(digit(2) as int),
        ]);
        assert(decimal(n) =~= s);
    }
}

/// Four words between dots are the four parts of the text they make.
proof fn lemma_four_parts(w: Seq<char>, x: Seq<char>, y: Seq<char>, z: Seq<char>)
    requires
        forall|i: int| 0 <= i < w.len() ==> '0' <= #[trigger] w[i] <= '9',
        forall|i: int| 0 <= i < x.len() ==> '0' <= #[trigger] x[i] <= '9',
        forall|i: int| 0 <= i < y.len() ==> '0' <= #[trigger] y[i] <= '9',
        forall|i: int| 0 <= i < z.len() ==> '0' <= #[trigger] z[i] <= '9',
    ensures
        parts(w + seq!['.'] + x + seq!['.'] + y + seq!['.'] + z, '.') == seq![w, x, y, z],
{
    let s = w + seq!['.'] + x + seq!['.'] + y + seq!['.'] + z;
    let i1 = w.len() as int;
    let i2 = i1 + 1 + x.len();
    let i3 = i2 + 1 + y.len();
    let n = s.len() as int;
    assert(s.subrange(0, i1) =~= w);
    assert(s.subrange(i1 + 1, i2) =~= x);
    assert(s.subrange(i2 + 1, i3) =~= y);
    assert(s.subrange(i3 + 1, n) =~= z);
    assert(s[i1] == '.' && s[i2] == '.' && s[i3] == '.');
    assert forall|i: int| 0 <= i < i1 implies #[trigger] s[i] != '.' by {
        assert(s[i] == w[i]);
    }
    assert forall|i: int| i1 + 1 <= i < i2 implies #[trigger] s[i] != '.' by {
        assert(s[i] == x[i - i1 - 1]);
    }
    assert forall|i: int| i2 + 1 <= i < i3 implies #[trigger] s[i] != '.' by {
        assert(s[i] == y[i - i2 - 1]);
    }
    assert forall|i: int| i3 + 1 <= i < n implies #[trigger] s[i] != '.' by {
        assert(s[i] == z[i - i3 - 1]);
    }
    lemma_part(s, '.', 0, i1);
    lemma_part(s, '.', i1 + 1, i2);
    lemma_part(s, '.', i2 + 1, i3);
    lemma_last_part(s, '.', i3 + 1);
    assert(parts(s, '.') =~= seq![w, x, y, z]);
}

/// The text of a dotted address.
pub open spec fn dotted_text(a: nat, b: nat, c: nat, d: nat) -> Seq<char> {
    decimal(a) + seq!['.'] + decimal(b) + seq!['.'] + decimal(c) + seq!['.'] + decimal(d)
}

/// A dotted address is loopback exactly where it begins with 127.
pub proof fn law_dotted_address_is_known_by_its_first_octet(a: nat, b: nat, c: nat, d: nat)
    requires
        a <= 255,
        b <= 255,
        c <= 255,
        d <= 255,
    ensures
        dotted(dotted_text(a, b, c, d)) == Some((a, b, c, d)),
        is_loopback_literal(dotted_text(a, b, c, d)) <==> a == 127,
{
    lemma_octet_of_decimal(a);
    lemma_octet_of_decimal(b);
    lemma_octet_of_decimal(c);
    lemma_octet_of_decimal(d);
    lemma_four_parts(decimal(a), decimal(b), decimal(c), decimal(d));
}

/// Parts with a mark between any two.
spec fn rejoined(fields: Seq<Seq<char>>, mark: char) -> Seq<char>
    decreases fields.len(),
{
    if fields.len() == 0 {
        Seq::empty()
    } else if fields.len() == 1 {
        fields[0]
    } else {
        fields[0] + seq![mark] + rejoined(fields.skip(1), mark)
    }
}

proof fn lemma_rejoined_parts(s: Seq<char>, mark: char, from: int)
    requires
        0 <= from <= s.len(),
    ensures
        rejoined(parts_from(s, mark, from), mark) == s.subrange(from, s.len() as int),
    decreases s.len() - from,
{
    let end = mark_at(s, mark, from);
    let n = s.len() as int;
    lemma_parts_split(s, mark, from);
    if end < n {
        lemma_rejoined_parts(s, mark, end + 1);
        lemma_parts_split(s, mark, end + 1);
        assert(s.subrange(from, n) =~= s.subrange(from, end) + seq![mark] + s.subrange(end + 1, n));
    }
}

/// A text of four parts is its parts with dots between.
proof fn lemma_joined_parts(s: Seq<char>)
    requires
        parts(s, '.').len() == 4,
    ensures
        ({
            let fields = parts(s, '.');
            s == fields[0] + seq!['.'] + (fields[1] + seq!['.'] + (fields[2] + seq!['.']
                + fields[3]))
        }),
{
    let fields = parts(s, '.');
    lemma_rejoined_parts(s, '.', 0);
    assert(s.subrange(0, s.len() as int) =~= s);
    let rest = fields.skip(1);
    assert(rest.skip(1) =~= fields.skip(2));
    assert(fields.skip(2).skip(1) =~= fields.skip(3));
    assert(rejoined(fields.skip(3), '.') == fields[3]);
    assert(rejoined(fields.skip(2), '.') == fields[2] + seq!['.'] + fields[3]);
    assert(rejoined(rest, '.') == fields[1] + seq!['.'] + (fields[2] + seq!['.'] + fields[3]));
}

/// A text without colons has not the eight groups of a longer address.
proof fn lemma_no_groups(s: Seq<char>)
    requires
        forall|i: int| 0 <= i < s.len() ==> #[trigger] s[i] != ':',
    ensures
        ipv6_groups(s) is None,
{
    lemma_no_gap(s, 0);
    lemma_last_part(s, ':', 0);
    reveal_with_fuel(groups_of, 2);
}

/// A text without colons is a loopback address only where it is four octets, the first
/// of them 127: no other text is, however it begins.
pub proof fn law_only_dotted_quads_are_loopback(s: Seq<char>)
    requires
        forall|i: int| 0 <= i < s.len() ==> #[trigger] s[i] != ':',
        is_loopback_literal(s),
    ensures
        exists|b: nat, c: nat, d: nat|
            b <= 255 && c <= 255 && d <= 255 && s == #[trigger] dotted_text(127, b, c, d),
{
    lemma_no_groups(s);
    let (a, b, c, d) = dotted(s)->0;
    let fields = parts(s, '.');
    lemma_joined_parts(s);
    lemma_decimal_of_octet(fields[0]);
    lemma_decimal_of_octet(fields[1]);
    lemma_decimal_of_octet(fields[2]);
    lemma_decimal_of_octet(fields[3]);
    assert(s =~= dotted_text(127, b, c, d));
}

proof fn lemma_no_gap(s: Seq<char>, from: int)
    requires
        0 <= from,
        forall|i: int| 0 <= i < s.len() ==> #[trigger] s[i] != ':',
    ensures
        gap_at(s, from) == s.len(),
    decreases s.len() - from,
{
    if from + 1 < s.len() {
        assert(s[from] != ':');
        lemma_no_gap(s, from + 1);
    }
}

/// Hexadecimal digits spell zero only where they are all zeros, and one only where a one
/// follows such zeros.
proof fn lemma_small_hex(s: Seq<char>)
    ensures
        digits_in(s, 16) == Some(0nat) <==> forall|i: int|
            0 <= i < s.len() ==> #[trigger] s[i] == '0',
        digits_in(s, 16) == Some(1nat) <==> s.len() > 0 && s.last() == '1' && forall|i: int|
            0 <= i < s.len() - 1 ==> #[trigger] s[i] == '0',
    decreases s.len(),
{
    if s.len() > 0 {
        let head = s.drop_last();
        lemma_small_hex(head);
        assert(forall|i: int| 0 <= i < head.len() ==> head[i] == s[i]);
        if forall|i: int| 0 <= i < s.len() - 1 ==> #[trigger] s[i] == '0' {
            assert(forall|i: int| 0 <= i < head.len() ==> #[trigger] head[i] == '0');
        }
        if forall|i: int| 0 <= i < head.len() ==> #[trigger] head[i] == '0' {
            assert forall|i: int| 0 <= i < s.len() - 1 implies #[trigger] s[i] == '0' by {
                assert(head[i] == '0');
            }
        }
        if forall|i: int| 0 <= i < s.len() ==> #[trigger] s[i] == '0' {
            assert(s[s.len() - 1] == '0');
        }
    }
}

/// A group behind `::` makes a loopback address exactly where it is one, with or without
/// zeros before it.
pub proof fn law_short_loopback_is_one(group: Seq<char>)
    requires
        1 <= group.len() <= 4,
        forall|i: int| 0 <= i < group.len() ==> #[trigger] group[i] != ':' && group[i] != '.',
    ensures
        is_loopback_literal(seq![':', ':'] + group) <==> group.last() == '1' && forall|i: int|
            0 <= i < group.len() - 1 ==> #[trigger] group[i] == '0',
{
    let s = seq![':', ':'] + group;
    assert forall|i: int| 0 <= i < s.len() implies #[trigger] s[i] != '.' by {
        if i >= 2 {
            assert(s[i] == group[i - 2]);
        }
    }
    lemma_last_part(s, '.', 0);
    assert(dotted(s) is None);
    assert(gap_at(s, 0) == 0);
    assert(s.take(0) =~= Seq::<char>::empty());
    assert(s.skip(2) =~= group);
    lemma_last_part(group, ':', 0);
    lemma_last_part(group, '.', 0);
    assert(group.subrange(0, group.len() as int) =~= group);
    assert(dotted(group) is None);
    reveal_with_fuel(groups_of, 2);
    lemma_small_hex(group);
    if let Some(n) = digits_in(group, 16) {
        let tail = Seq::<nat>::empty().push(n);
        let groups = Seq::<nat>::empty() + Seq::new(7, |i: int| 0nat) + tail;
        assert(run_groups(group, true) == Some(tail));
        assert(ipv6_groups(s) == Some(groups));
        assert(groups =~= seq![0nat, 0, 0, 0, 0, 0, 0, n]);
        if n != 1 {
            assert(groups[7] != seq![0nat, 0, 0, 0, 0, 0, 0, 1][7]);
        }
    }
}

} // verus!
