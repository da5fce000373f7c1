//! Reading what the kernel says of processes and cgroups, and writing a pid back
//! without allocating.
use crate::escape::ascii;
use crate::text::{
    chars_of, decimal, digit_char, find, find_from, has_prefix, i32_of, is_digit, is_white,
    law_decimal_reads_back, lemma_find_from, occurs_at, parse_i32, signed_decimal, space_end, stands_at, text_of, trimmed,
    trimmed_end, word_end,
};
use vstd::prelude::*;

verus! {

/// The pid that one line of `cgroup.procs` names, if it names one.
pub open spec fn pid_of_line(line: Seq<char>) -> Seq<i32> {
    match i32_of(trimmed(line, 0, line.len() as int)) {
        Some(pid) => if pid > 0 {
            seq![pid as i32]
        } else {
            Seq::empty()
        },
        None => Seq::empty(),
    }
}

/// The pids that a text names, one a line; anything else in it is passed over.
pub open spec fn pids_in(text: Seq<char>) -> Seq<i32>
    decreases text.len(),
{
    proof {
        lemma_find_from(text, "\n"@, 0);
        reveal_strlit("\n");
    }
    match find_from(text, "\n"@, 0) {
        Some(end) => pid_of_line(text.take(end)) + pids_in(text.skip(end + 1)),
        None => pid_of_line(text),
    }
}

/// The first position at or after `at`, and before `to`, that holds no white
/// space.
fn skip_space(chars: &Vec<char>, at: usize, to: usize) -> (end: usize)
    requires
        at <= to <= chars.len(),
    ensures
        end == space_end(chars@.take(to as int), at as int),
        at <= end <= to,
{
    let mut end: usize = at;
    while end < to && is_white(chars[end])
        invariant
            at <= end <= to <= chars.len(),
            space_end(chars@.take(to as int), at as int) == space_end(
                chars@.take(to as int),
                end as int,
            ),
        decreases to - end,
    {
        end += 1;
    }
    end
}

/// The pid that the line `from..to` names, if it names one.
fn line_pid(chars: &Vec<char>, from: usize, to: usize) -> (pid: Option<i32>)
    requires
        from <= to <= chars.len(),
    ensures
        match pid {
            Some(pid) => pid_of_line(chars@.subrange(from as int, to as int)) == seq![pid],
            None => pid_of_line(chars@.subrange(from as int, to as int)) == Seq::<i32>::empty(),
        },
{
    let ghost line = chars@.subrange(from as int, to as int);
    let text: Vec<char> = chars_of(text_of(chars, from, to).as_str());
    let start: usize = skip_space(&text, 0, text.len());
    assert(text@.take(text@.len() as int) =~= text@);
    assert(line.take(line.len() as int) =~= line);
    let mut end: usize = text.len();
    while end > start && is_white(text[end - 1])
        invariant
            start <= end <= text.len(),
            trimmed_end(text@, start as int, text@.len() as int) == trimmed_end(
                text@,
                start as int,
                end as int,
            ),
        decreases end - start,
    {
        end -= 1;
    }
    match parse_i32(&text, start, end) {
        Some(pid) if pid > 0 => Some(pid),
        _ => None,
    }
}

/// The pids that `cgroup.procs` lists. Membership is the kernel's word; noise in
/// the text is passed over.
pub fn parse_cgroup_procs(content: &str) -> (pids: Vec<i32>)
    ensures
        pids@ == pids_in(content@),
{
    let chars = chars_of(content);
    let newline = chars_of("\n");
    let mut pids: Vec<i32> = Vec::new();
    let mut at: usize = 0;
    proof {
        reveal_strlit("\n");
        assert(chars@.skip(0) =~= content@);
        assert(pids@ + pids_in(content@) =~= pids_in(content@));
    }
    loop
        invariant
            chars@ == content@,
            newline@ == "\n"@,
            newline@.len() == 1,
            0 <= at <= chars.len(),
            pids@ + pids_in(chars@.skip(at as int)) == pids_in(content@),
        decreases chars.len() - at,
    {
        let ghost rest = chars@.skip(at as int);
        let next = find(&chars, &newline, at);
        proof {
            lemma_find_shift(chars@, "\n"@, at as int, 0);
        }
        let ghost before = pids@;
        match next {
            Some(end) => {
                assert(rest.take(end - at) =~= chars@.subrange(at as int, end as int));
                assert(rest.skip(end - at + 1) =~= chars@.skip(end + 1));
                let found = line_pid(&chars, at, end);
                if let Some(pid) = found {
                    pids.push(pid);
                    assert(pids@ =~= before + seq![pid]);
                }
                proof {
                    let line = pid_of_line(chars@.subrange(at as int, end as int));
                    assert(pids@ =~= before + line);
                    assert(pids@ + pids_in(chars@.skip(end + 1)) =~= before + (line + pids_in(
                        chars@.skip(end + 1),
                    )));
                }
                at = end + 1;
            },
            None => {
                assert(rest =~= chars@.subrange(at as int, chars@.len() as int));
                let found = line_pid(&chars, at, chars.len());
                if let Some(pid) = found {
                    pids.push(pid);
                    assert(pids@ =~= before + seq![pid]);
                }
                assert(pids@ =~= before + pid_of_line(rest));
                return pids;
            },
        }
    }
}

/// Looking in the rest of a text is looking in the text from there on.
proof fn lemma_find_shift(s: Seq<char>, pattern: Seq<char>, by: int, from: int)
    requires
        0 <= by <= s.len(),
        0 <= from,
    ensures
        find_from(s, pattern, by + from) == (match find_from(s.skip(by), pattern, from) {
            Some(at) => Some(at + by),
            None => None::<int>,
        }),
    decreases s.len() - by - from,
{
    let rest = s.skip(by);
    if from + pattern.len() <= rest.len() {
        assert(rest.subrange(from, from + pattern.len()) =~= s.subrange(
            by + from,
            by + from + pattern.len(),
        ));
        if from < rest.len() {
            lemma_find_shift(s, pattern, by, from + 1);
        }
    }
}

/// The last position at or before `at` where `pattern` stands in `s`.
pub open spec fn find_last(s: Seq<char>, pattern: Seq<char>, at: int) -> Option<int>
    decreases at + 1,
{
    if at < 0 {
        None
    } else if occurs_at(s, pattern, at) {
        Some(at)
    } else {
        find_last(s, pattern, at - 1)
    }
}

/// The first, second and third word of `s` from `at` on; a word that is missing
/// is empty.
pub open spec fn three_words(s: Seq<char>, at: int) -> (Seq<char>, Seq<char>, Seq<char>) {
    let start1 = space_end(s, at);
    let end1 = word_end(s, start1);
    let start2 = space_end(s, end1);
    let end2 = word_end(s, start2);
    let start3 = space_end(s, end2);
    let end3 = word_end(s, start3);
    (s.subrange(start1, end1), s.subrange(start2, end2), s.subrange(start3, end3))
}

/// Whether a `/proc/<pid>/stat` line is that of a member of process group `pgid`
/// that has not exited. The command name may hold spaces and parentheses, so the
/// fields are read after the last closing one.
pub open spec fn live_member(stat: Seq<char>, pgid: int) -> bool {
    match find_last(stat, ") "@, stat.len() as int) {
        Some(close) => {
            let (state, _, group) = three_words(stat, close + 2);
            state != "Z"@ && i32_of(group) == Some(pgid)
        },
        None => false,
    }
}

/// The end of the word that starts at `at`.
fn skip_word(chars: &Vec<char>, at: usize) -> (end: usize)
    requires
        at <= chars.len(),
    ensures
        end == word_end(chars@, at as int),
        at <= end <= chars.len(),
{
    let mut end: usize = at;
    while end < chars.len() && !is_white(chars[end])
        invariant
            at <= end <= chars.len(),
            word_end(chars@, at as int) == word_end(chars@, end as int),
        decreases chars.len() - end,
    {
        end += 1;
    }
    end
}

/// Whether a `/proc/<pid>/stat` line is that of a member of process group `pgid`
/// that has not exited.
///
/// No signal can express the difference: a zombie is still a member of its
/// process group and still accepts signal zero, but it has exited and is no
/// survivor.
pub fn stat_shows_live_member(stat: &str, pgid: i32) -> (live: bool)
    ensures
        live == live_member(stat@, pgid as int),
{
    let chars = chars_of(stat);
    let mark = chars_of(") ");
    proof {
        reveal_strlit(") ");
        reveal_strlit("Z");
    }
    let mut at: usize = chars.len();
    while !stands_at(&chars, &mark, at)
        invariant
            chars@ == stat@,
            mark@ == ") "@,
            at <= chars.len(),
            find_last(stat@, ") "@, stat@.len() as int) == find_last(stat@, ") "@, at as int),
        decreases at,
    {
        if at == 0 {
            assert(find_last(stat@, ") "@, 0 - 1) is None);
            return false;
        }
        at -= 1;
    }
    let from: usize = at + 2;
    assert(chars@.take(chars@.len() as int) =~= chars@);
    let start1: usize = skip_space(&chars, from, chars.len());
    let end1: usize = skip_word(&chars, start1);
    let start2: usize = skip_space(&chars, end1, chars.len());
    let end2: usize = skip_word(&chars, start2);
    let start3: usize = skip_space(&chars, end2, chars.len());
    let end3: usize = skip_word(&chars, start3);
    let zombie: bool = end1 - start1 == 1 && chars[start1] == 'Z';
    proof {
        let state = chars@.subrange(start1 as int, end1 as int);
        if zombie {
            assert(state =~= "Z"@);
        }
        if state == "Z"@ {
            assert(state.len() == 1 && state[0] == 'Z');
        }
        assert(zombie == (state == "Z"@));
        let (first, _, third) = three_words(stat@, from as int);
        assert(first == state);
        assert(third == chars@.subrange(start3 as int, end3 as int));
    }
    match parse_i32(&chars, start3, end3) {
        Some(group) => group == pgid && !zombie,
        None => false,
    }
}

/// The end of the slashes that stand in `s` from `at` on.
pub open spec fn slashes_end(s: Seq<char>, at: int) -> int
    decreases s.len() - at,
{
    if at >= s.len() || s[at] != '/' {
        at
    } else {
        slashes_end(s, at + 1)
    }
}

/// The cgroup that one line of `/proc/self/cgroup` places this process in,
/// relative to the cgroup mount.
pub open spec fn hint_of_line(line: Seq<char>) -> Seq<Seq<char>> {
    if "0::"@.is_prefix_of(line) {
        seq![line.skip(slashes_end(line, 3))]
    } else {
        Seq::empty()
    }
}

/// A line without the carriage return that a line feed may follow.
pub open spec fn chomped(line: Seq<char>) -> Seq<char> {
    if line.len() > 0 && line.last() == '\r' {
        line.drop_last()
    } else {
        line
    }
}

/// The cgroups that `/proc/self/cgroup` places this process in, in order.
pub open spec fn hints_in(text: Seq<char>) -> Seq<Seq<char>>
    decreases text.len(),
{
    proof {
        lemma_find_from(text, "\n"@, 0);
        reveal_strlit("\n");
    }
    match find_from(text, "\n"@, 0) {
        Some(end) => hint_of_line(chomped(text.take(end))) + hints_in(text.skip(end + 1)),
        None => hint_of_line(text),
    }
}

/// The content of a list of strings.
pub open spec fn texts(list: Seq<String>) -> Seq<Seq<char>> {
    Seq::new(list.len(), |i: int| list[i]@)
}

/// The cgroup that the line `from..to` names, if it names one.
fn line_hint(chars: &Vec<char>, from: usize, to: usize) -> (hint: Option<String>)
    requires
        from <= to <= chars.len(),
    ensures
        match hint {
            Some(hint) => hint_of_line(chars@.subrange(from as int, to as int)) == seq![hint@],
            None => hint_of_line(chars@.subrange(from as int, to as int)) == Seq::<
                Seq<char>,
            >::empty(),
        },
{
    let text = text_of(chars, from, to);
    let ghost line = text@;
    proof {
        reveal_strlit("0::");
    }
    if !has_prefix(text.as_str(), "0::") {
        return None;
    }
    let line_chars = chars_of(text.as_str());
    let mut at: usize = 3;
    while at < line_chars.len() && line_chars[at] == '/'
        invariant
            line_chars@ == line,
            3 <= at <= line_chars.len(),
            slashes_end(line, 3) == slashes_end(line, at as int),
        decreases line_chars.len() - at,
    {
        at += 1;
    }
    let hint = text_of(&line_chars, at, line_chars.len());
    assert(hint@ =~= line.skip(at as int));
    Some(hint)
}

/// The cgroups that `/proc/self/cgroup` places this process in. They are read
/// **only** to locate the runtime itself, never to attribute a process to a
/// session: the paths are relative to the cgroup namespace, so each is a hint that
/// the caller verifies against the mount.
pub fn own_cgroup_hints(content: &str) -> (hints: Vec<String>)
    ensures
        texts(hints@) == hints_in(content@),
{
    let chars = chars_of(content);
    let newline = chars_of("\n");
    let mut hints: Vec<String> = Vec::new();
    let mut at: usize = 0;
    proof {
        reveal_strlit("\n");
        assert(chars@.skip(0) =~= content@);
        assert(texts(hints@) + hints_in(content@) =~= hints_in(content@));
    }
    loop
        invariant
            chars@ == content@,
            newline@ == "\n"@,
            newline@.len() == 1,
            0 <= at <= chars.len(),
            texts(hints@) + hints_in(chars@.skip(at as int)) == hints_in(content@),
        decreases chars.len() - at,
    {
        let ghost rest = chars@.skip(at as int);
        let next = find(&chars, &newline, at);
        proof {
            lemma_find_shift(chars@, "\n"@, at as int, 0);
        }
        let ghost before = texts(hints@);
        match next {
            Some(end) => {
                let stop: usize = if end > at && chars[end - 1] == '\r' {
                    end - 1
                } else {
                    end
                };
                assert(rest.take(end - at) =~= chars@.subrange(at as int, end as int));
                assert(chomped(rest.take(end - at)) =~= chars@.subrange(at as int, stop as int));
                assert(rest.skip(end - at + 1) =~= chars@.skip(end + 1));
                let ghost line = hint_of_line(chars@.subrange(at as int, stop as int));
                if let Some(hint) = line_hint(&chars, at, stop) {
                    hints.push(hint);
                    assert(texts(hints@) =~= before + line);
                } else {
                    assert(texts(hints@) =~= before + line);
                }
                assert(texts(hints@) + hints_in(chars@.skip(end + 1)) =~= before + (line + hints_in(
                    chars@.skip(end + 1),
                )));
                at = end + 1;
            },
            None => {
                assert(rest =~= chars@.subrange(at as int, chars@.len() as int));
                if let Some(hint) = line_hint(&chars, at, chars.len()) {
                    hints.push(hint);
                    assert(texts(hints@) =~= before + hint_of_line(rest));
                } else {
                    assert(texts(hints@) =~= before + hint_of_line(rest));
                }
                return hints;
            },
        }
    }
}

/// Ten to the power of `n`.
pub open spec fn pow10(n: nat) -> nat
    decreases n,
{
    if n == 0 {
        1
    } else {
        10 * pow10((n - 1) as nat)
    }
}

proof fn lemma_pow10_is_large(n: nat)
    requires
        n >= 10,
    ensures
        pow10(n) >= 10_000_000_000,
    decreases n,
{
    if n > 10 {
        lemma_pow10_is_large((n - 1) as nat);
    } else {
        reveal_with_fuel(pow10, 11);
    }
}

/// Allocation-free decimal formatting for the pre-exec hook. Returns the number
/// of bytes written at the start of `buf`; the rest of `buf` stays as it was.
pub fn format_pid_decimal(pid: i32, buf: &mut [u8; 24]) -> (len: usize)
    ensures
        len == signed_decimal(pid as int).len(),
        1 <= len <= 11,
        final(buf)@.take(len as int) == ascii(signed_decimal(pid as int)),
        final(buf)@.skip(len as int) == old(buf)@.skip(len as int),
{
    let ghost total: nat = if pid < 0 {
        (-(pid as int)) as nat
    } else {
        pid as nat
    };
    let negative: bool = pid < 0;
    let mut value: u64 = if negative {
        (-(pid as i64)) as u64
    } else {
        pid as u64
    };
    let mut digits: [u8; 24] = [0u8; 24];
    let mut n: usize = 0;
    let ghost mut suffix: Seq<char> = Seq::empty();
    assert(decimal(total) + suffix =~= decimal(total));
    assert(value * pow10(0) == value) by {
        assert(pow10(0) == 1);
    }
    loop
        invariant_except_break
            n == 0 || value > 0,
            decimal(total) == decimal(value as nat) + suffix,
        invariant
            total <= 0x8000_0000,
            value * pow10(n as nat) <= total,
            n <= 10,
            suffix.len() == n,
            forall|i: int|
                0 <= i < n ==> suffix[i] == digits@[n - 1 - i] as char && 0x30
                    <= #[trigger] digits@[n - 1 - i] <= 0x39,
        ensures
            n >= 1,
            decimal(total) == suffix,
        decreases value, 10 - n,
    {
        if n >= 10 {
            proof {
                lemma_pow10_is_large(n as nat);
                let p = pow10(n as nat) as int;
                assert(value * p >= p) by (nonlinear_arith)
                    requires
                        value >= 1,
                        p >= 0,
                ;
            }
        }
        let d: u8 = (value % 10) as u8;
        let ghost earlier = suffix;
        let ghost old_digits = digits@;
        let ghost old_value = value as nat;
        digits[n] = 48 + d;
        proof {
            suffix = seq![digit_char((value % 10) as int)] + suffix;
            let p = pow10(n as nat) as int;
            let q = (value / 10) as int;
            assert(pow10((n + 1) as nat) == 10 * pow10(n as nat));
            assert(q * (10 * p) <= value * p) by (nonlinear_arith)
                requires
                    q * 10 <= value,
                    p >= 0,
            ;
        }
        value = value / 10;
        n += 1;
        assert forall|i: int| 0 <= i < n implies suffix[i] == digits@[n - 1 - i] as char && 0x30
            <= #[trigger] digits@[n - 1 - i] <= 0x39 by {
            if i > 0 {
                assert(suffix[i] == earlier[i - 1]);
                assert(digits@[n - 1 - i] == old_digits[(n - 1) - 1 - (i - 1)]);
            }
        }
        if value == 0 {
            assert(decimal(old_value) =~= seq![digit_char(old_value as int)]);
            assert(decimal(total) =~= suffix);
            break;
        }
        assert(decimal(old_value) == decimal(value as nat).push(digit_char((old_value % 10) as int)));
        assert(decimal(total) =~= decimal(value as nat) + suffix);
    }
    let mut len: usize = 0;
    if negative {
        buf[0] = 0x2d;
        len = 1;
    }
    let ghost sign: Seq<char> = if negative {
        seq!['-']
    } else {
        Seq::empty()
    };
    assert(signed_decimal(pid as int) =~= sign + suffix);
    let mut i: usize = 0;
    while i < n
        invariant
            0 <= i <= n <= 10,
            len == sign.len(),
            len <= 1,
            negative ==> sign == seq!['-'] && buf@[0] == 0x2d,
            negative == (sign.len() == 1),
            suffix.len() == n,
            forall|k: int|
                0 <= k < n ==> suffix[k] == digits@[n - 1 - k] as char && 0x30
                    <= #[trigger] digits@[n - 1 - k] <= 0x39,
            forall|k: int| 0 <= k < i ==> #[trigger] buf@[len + k] == suffix[k] as u8,
            forall|k: int| len + n <= k < 24 ==> #[trigger] buf@[k] == old(buf)@[k],
        decreases n - i,
    {
        assert(suffix[i as int] == digits@[n - 1 - i] as char);
        let ghost before = buf@;
        buf[len + i] = digits[n - 1 - i];
        assert(buf@ == before.update(len + i, digits@[n - 1 - i]));
        i += 1;
    }
    let ghost text = ascii(signed_decimal(pid as int));
    assert forall|k: int| 0 <= k < len + n implies #[trigger] buf@.take(len + n)[k] == text[k] by {
        if k >= len {
            assert(buf@[len + (k - len)] == suffix[k - len] as u8);
        } else {
            assert(text[0] == '-' as u8);
        }
    }
    assert(buf@.take(len + n) =~= text);
    assert(buf@.skip(len + n) =~= old(buf)@.skip(len + n));
    len + n
}

/// A pid that was written for the kernel reads back from its list of members.
pub proof fn law_printed_pid_reads_back(pid: i32)
    requires
        pid > 0,
    ensures
        pids_in(signed_decimal(pid as int)) == seq![pid],
{
    let line = signed_decimal(pid as int);
    law_decimal_reads_back(pid as nat);
    reveal_strlit("\n");
    lemma_find_from(line, "\n"@, 0);
    if let Some(at) = find_from(line, "\n"@, 0) {
        assert(line[at] == "\n"@[0]);
        assert(is_digit(line[at]));
    }
    assert(is_digit(line[0]) && is_digit(line[line.len() - 1]));
    assert(line.take(line.len() as int) =~= line);
    assert(trimmed(line, 0, line.len() as int) =~= line);
}

proof fn lemma_first_line(line: Seq<char>, rest: Seq<char>, from: int)
    requires
        0 <= from <= line.len(),
        forall|i: int| 0 <= i < line.len() ==> #[trigger] line[i] != '\n',
    ensures
        find_from(line + seq!['\n'] + rest, "\n"@, from) == Some(line.len() as int),
    decreases line.len() - from,
{
    let text = line + seq!['\n'] + rest;
    reveal_strlit("\n");
    assert("\n"@.len() == 1 && "\n"@[0] == '\n');
    if from < line.len() {
        assert(line[from] != '\n');
        assert(text.subrange(from, from + 1)[0] == line[from]);
        lemma_first_line(line, rest, from + 1);
    } else {
        assert(text.subrange(from, from + 1) =~= "\n"@);
    }
}

/// Members are read line by line: a line that is a pid gives that pid, and what follows
/// is read on its own.
pub proof fn law_pids_are_read_line_by_line(pid: i32, line: Seq<char>, rest: Seq<char>)
    requires
        pid > 0,
        forall|i: int| 0 <= i < line.len() ==> #[trigger] line[i] != '\n',
    ensures
        pids_in(decimal(pid as nat) + seq!['\n'] + rest) == seq![pid] + pids_in(rest),
        pids_in(line + seq!['\n'] + rest) == pids_in(line) + pids_in(rest),
{
    law_decimal_reads_back(pid as nat);
    law_printed_pid_reads_back(pid);
    lemma_split_lines(line, rest);
    let first = decimal(pid as nat);
    assert forall|i: int| 0 <= i < first.len() implies #[trigger] first[i] != '\n' by {
        assert(is_digit(first[i]));
    }
    lemma_split_lines(first, rest);
}

proof fn lemma_split_lines(line: Seq<char>, rest: Seq<char>)
    requires
        forall|i: int| 0 <= i < line.len() ==> #[trigger] line[i] != '\n',
    ensures
        pids_in(line + seq!['\n'] + rest) == pids_in(line) + pids_in(rest),
        hints_in(line + seq!['\n'] + rest) == hint_of_line(chomped(line)) + hints_in(rest),
        hints_in(line) == hint_of_line(line),
{
    let text = line + seq!['\n'] + rest;
    lemma_first_line(line, rest, 0);
    assert(text.take(line.len() as int) =~= line);
    assert(text.skip(line.len() as int + 1) =~= rest);
    reveal_strlit("\n");
    lemma_find_from(line, "\n"@, 0);
    if let Some(at) = find_from(line, "\n"@, 0) {
        assert(line.subrange(at, at + 1)[0] == line[at]);
    }
}

/// A line that does not begin as a number does names no pid.
pub proof fn law_other_lines_name_no_pid(line: Seq<char>)
    requires
        forall|i: int| 0 <= i < line.len() ==> #[trigger] line[i] != '\n',
        line.len() > 0,
        !('0' <= line[0] <= '9') && line[0] != '+' && !crate::text::is_space(line[0]),
    ensures
        pids_in(line) == Seq::<i32>::empty(),
{
    lemma_split_lines(line, Seq::empty());
    reveal_strlit("\n");
    lemma_find_from(line, "\n"@, 0);
    if let Some(at) = find_from(line, "\n"@, 0) {
        assert(line.subrange(at, at + 1)[0] == line[at]);
    }
    let whole = line.take(line.len() as int);
    assert(whole =~= line);
    assert(space_end(whole, 0) == 0);
    let end = trimmed_end(line, 0, line.len() as int);
    lemma_trimmed_end_keeps(line, 0, line.len() as int);
    let word = trimmed(line, 0, line.len() as int);
    assert(word == line.subrange(0, end));
    assert(word[0] == line[0]);
    if line[0] != '-' {
        assert(!is_digit(word[0]));
    }
}

/// What is trimmed from the end is no more than the white space there.
proof fn lemma_trimmed_end_keeps(s: Seq<char>, at: int, end: int)
    requires
        0 <= at < end <= s.len(),
        !crate::text::is_space(s[at]),
    ensures
        at < trimmed_end(s, at, end) <= end,
    decreases end - at,
{
    if end - 1 > at && crate::text::is_space(s[end - 1]) {
        lemma_trimmed_end_keeps(s, at, end - 1);
    }
}

/// The line of the unified hierarchy places this process at its path, without the slash
/// that the path begins with; the lines of other hierarchies say nothing.
pub proof fn law_cgroup_is_read_from_the_unified_line(path: Seq<char>, other: Seq<char>, rest: Seq<char>)
    requires
        forall|i: int| 0 <= i < path.len() ==> #[trigger] path[i] != '\n',
        path.len() > 0,
        path[0] != '/',
        path.last() != '\r',
        forall|i: int| 0 <= i < other.len() ==> #[trigger] other[i] != '\n',
        other.len() >= 3,
        other.subrange(0, 3) != "0::"@,
        other.last() != '\r',
    ensures
        hints_in("0::"@ + seq!['/'] + path + seq!['\n'] + rest) == seq![path] + hints_in(rest),
        hints_in(other + seq!['\n'] + rest) == hints_in(rest),
{
    reveal_strlit("0::");
    let line = "0::"@ + seq!['/'] + path;
    assert forall|i: int| 0 <= i < line.len() implies #[trigger] line[i] != '\n' by {
        if i >= 4 {
            assert(line[i] == path[i - 4]);
        }
    }
    lemma_split_lines(line, rest);
    lemma_split_lines(other, rest);
    assert(line.last() == path.last());
    assert("0::"@.is_prefix_of(line));
    assert(line[3] == '/' && line[4] == path[0]);
    reveal_with_fuel(slashes_end, 3);
    assert(slashes_end(line, 3) == 4);
    assert(line.skip(4) =~= path);
    if "0::"@.is_prefix_of(other) {
        assert(other.subrange(0, 3) =~= "0::"@);
    }
    assert(Seq::<Seq<char>>::empty() + hints_in(rest) =~= hints_in(rest));
}

proof fn lemma_find_last_is(s: Seq<char>, at: int, from: int)
    requires
        0 <= at <= from <= s.len(),
        occurs_at(s, ") "@, at),
        forall|i: int| at < i < s.len() ==> #[trigger] s[i] != ')',
    ensures
        find_last(s, ") "@, from) == Some(at),
    decreases from,
{
    reveal_strlit(") ");
    if from > at {
        if occurs_at(s, ") "@, from) {
            assert(s.subrange(from, from + 2)[0] == s[from]);
        }
        lemma_find_last_is(s, at, from - 1);
    }
}

proof fn lemma_word_is(s: Seq<char>, at: int, end: int)
    requires
        0 <= at <= end <= s.len(),
        forall|i: int| at <= i < end ==> !crate::text::is_space(#[trigger] s[i]),
        end < s.len() ==> crate::text::is_space(s[end]),
    ensures
        word_end(s, at) == end,
    decreases end - at,
{
    if at < end {
        assert(!crate::text::is_space(s[at]));
        lemma_word_is(s, at + 1, end);
    }
}

/// A process is a live member of a group where the line on it names that group and says
/// that it is no zombie; what the process calls itself has no say in it.
pub proof fn law_membership_is_read_behind_the_name(
    head: Seq<char>,
    state: Seq<char>,
    parent: Seq<char>,
    group: nat,
    rest: Seq<char>,
    pgid: int,
)
    requires
        state.len() > 0,
        parent.len() > 0,
        group <= i32::MAX,
        forall|i: int|
            0 <= i < state.len() ==> !crate::text::is_space(#[trigger] state[i]) && state[i] != ')',
        forall|i: int|
            0 <= i < parent.len() ==> !crate::text::is_space(#[trigger] parent[i]) && parent[i]
                != ')',
        forall|i: int| 0 <= i < rest.len() ==> #[trigger] rest[i] != ')',
    ensures
        live_member(
            head + seq![')', ' '] + state + seq![' '] + parent + seq![' '] + decimal(group) + seq![
                ' ',
            ] + rest,
            pgid,
        ) <==> state != "Z"@ && group == pgid,
{
    let word = decimal(group);
    law_decimal_reads_back(group);
    let s = head + seq![')', ' '] + state + seq![' '] + parent + seq![' '] + word + seq![' ']
        + rest;
    let at = head.len() as int;
    let a = at + 2;
    let b = a + state.len();
    let c = b + 1 + parent.len();
    let d = c + 1 + word.len();
    reveal_strlit(") ");
    assert(s.subrange(at, at + 2) =~= ") "@);
    assert(s.subrange(a, b) =~= state);
    assert(s.subrange(b + 1, c) =~= parent);
    assert(s.subrange(c + 1, d) =~= word);
    assert(s[b] == ' ' && s[c] == ' ' && s[d] == ' ');
    assert forall|i: int| a <= i < b implies !crate::text::is_space(#[trigger] s[i]) && s[i]
        != ')' by {
        assert(s[i] == state[i - a]);
    }
    assert forall|i: int| b + 1 <= i < c implies !crate::text::is_space(#[trigger] s[i]) && s[i]
        != ')' by {
        assert(s[i] == parent[i - b - 1]);
    }
    assert forall|i: int| c + 1 <= i < d implies !crate::text::is_space(#[trigger] s[i]) && s[i]
        != ')' by {
        assert(s[i] == word[i - c - 1]);
        assert(is_digit(word[i - c - 1]));
    }
    assert forall|i: int| at < i < s.len() implies #[trigger] s[i] != ')' by {
        if i > d {
            assert(s[i] == rest[i - d - 1]);
        }
    }
    lemma_find_last_is(s, at, s.len() as int);
    assert(!crate::text::is_space(s[a]));
    lemma_word_is(s, a, b);
    assert(!crate::text::is_space(s[b + 1]));
    lemma_word_is(s, b + 1, c);
    assert(!crate::text::is_space(s[c + 1]));
    lemma_word_is(s, c + 1, d);
    reveal_with_fuel(space_end, 3);
    assert(space_end(s, a) == a);
    assert(space_end(s, b) == b + 1);
    assert(space_end(s, c) == c + 1);
    assert(is_digit(word[0]));
    assert(i32_of(word) == Some(group as int));
}

/// A line that never closes the name of its process says nothing of membership.
pub proof fn law_unfinished_lines_name_no_member(stat: Seq<char>, pgid: int)
    requires
        forall|i: int| 0 <= i < stat.len() ==> #[trigger] stat[i] != ')',
    ensures
        !live_member(stat, pgid),
{
    lemma_no_close(stat, stat.len() as int);
}

proof fn lemma_no_close(s: Seq<char>, at: int)
    requires
        at <= s.len(),
        forall|i: int| 0 <= i < s.len() ==> #[trigger] s[i] != ')',
    ensures
        find_last(s, ") "@, at) is None,
    decreases at + 1,
{
    reveal_strlit(") ");
    if at >= 0 {
        if occurs_at(s, ") "@, at) {
            assert(s.subrange(at, at + 2)[0] == s[at]);
        }
        lemma_no_close(s, at - 1);
    }
}

} // verus!
