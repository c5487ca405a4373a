//! The machine that the panel runs on, as `/proc` describes it.
use vstd::prelude::*;

use crate::numbers;
use crate::text;
use crate::text::CharClass;

verus! {

/// The memory of the machine in kilobytes.
#[derive(Debug, Clone, Copy, PartialEq, Eq, Structural)]
pub struct MemInfo {
    pub total: u64,
    pub available: u64,
}

/// The number that the second word of a line stands for, or the default.
pub open spec fn second_number(words: Seq<Seq<char>>, default: u64) -> u64 {
    if words.len() > 1 {
        match numbers::parsed(words[1], u64::MAX as nat) {
            Some(n) => n as u64,
            None => default,
        }
    } else {
        default
    }
}

/// What is known of the memory after one more line of `/proc/meminfo`.
pub open spec fn mem_line(known: MemInfo, line: Seq<char>) -> MemInfo {
    let words = text::words(line);
    if words.len() > 0 && words[0] == "MemTotal:"@ {
        MemInfo { total: second_number(words, known.total), ..known }
    } else if words.len() > 0 && words[0] == "MemAvailable:"@ {
        MemInfo { available: second_number(words, known.available), ..known }
    } else {
        known
    }
}

/// What the lines of `/proc/meminfo` say of the memory; nothing said means none.
pub open spec fn mem_lines(lines: Seq<Seq<char>>) -> MemInfo
    decreases lines.len(),
{
    if lines.len() == 0 {
        MemInfo { total: 0, available: 0 }
    } else {
        mem_line(mem_lines(lines.drop_last()), lines.last())
    }
}

fn second_of(words: &Vec<String>, default: u64) -> (r: u64)
    ensures
        r == second_number(text::views(words@), default),
{
    if words.len() > 1 {
        match numbers::parse_number(words[1].as_str(), u64::MAX) {
            Some(n) => n,
            None => default,
        }
    } else {
        default
    }
}

/// Reads `/proc/meminfo`.
pub fn parse_meminfo(meminfo: &str) -> (r: MemInfo)
    ensures
        r == mem_lines(text::split_at_class(meminfo@, CharClass::Is('\n'))),
{
    let lines = text::split(meminfo, CharClass::Is('\n'));
    let ghost all = text::views(lines@);
    let mut known = MemInfo { total: 0, available: 0 };
    let mut i: usize = 0;
    while i < lines.len()
        invariant
            i <= lines.len(),
            all == text::views(lines@),
            known == mem_lines(all.take(i as int)),
        decreases lines.len() - i,
    {
        proof {
            assert(all.take(i + 1).drop_last() =~= all.take(i as int));
            assert(all.take(i + 1).last() == lines@[i as int]@);
        }
        let words = text::words_of(lines[i].as_str());
        let ghost w = text::views(words@);
        if words.len() > 0 {
            proof {
                assert(w[0] == words@[0]@);
            }
            if text::same(words[0].as_str(), "MemTotal:") {
                let total: u64 = second_of(&words, known.total);
                known = MemInfo { total, available: known.available };
            } else if text::same(words[0].as_str(), "MemAvailable:") {
                let available: u64 = second_of(&words, known.available);
                known = MemInfo { total: known.total, available };
            }
        }
        i += 1;
    }
    proof {
        assert(all.take(i as int) =~= all);
    }
    known
}

/// So many kilobytes in whole megabytes.
pub open spec fn megabytes(kilobytes: int) -> int {
    kilobytes / 1024
}

impl MemInfo {
    /// The kilobytes in use; none where more is available than there is.
    pub open spec fn used(self) -> int {
        if self.total >= self.available {
            self.total - self.available
        } else {
            0
        }
    }

    /// The memory in megabytes.
    pub fn total_mb(self) -> (r: u64)
        ensures
            r == self.total / 1024,
            r == megabytes(self.total as int),
    {
        self.total / 1024
    }

    /// The memory that is in use, in megabytes; none where more is available than there is.
    pub fn used_mb(self) -> (r: u64)
        ensures
            r == (if self.total >= self.available {
                (self.total - self.available) / 1024
            } else {
                0
            }),
            r == megabytes(self.used()),
    {
        if self.total >= self.available {
            (self.total - self.available) / 1024
        } else {
            0
        }
    }
}

/// How many lines begin with the text.
pub open spec fn lines_with(lines: Seq<Seq<char>>, start: Seq<char>) -> nat
    decreases lines.len(),
{
    if lines.len() == 0 {
        0
    } else {
        lines_with(lines.drop_last(), start) + (if text::begins(lines.last(), start) {
            1nat
        } else {
            0
        })
    }
}

/// The processors of the machine by `/proc/cpuinfo`.
pub open spec fn processors(cpuinfo: Seq<char>) -> nat {
    let n = lines_with(text::split_at_class(cpuinfo, CharClass::Is('\n')), "processor"@);
    if n == 0 {
        1
    } else {
        n
    }
}

/// The processors of the machine by `/proc/cpuinfo`: one line each, and one at least.
pub fn cpu_count(cpuinfo: &str) -> (r: usize)
    ensures
        ({
            let n = lines_with(
                text::split_at_class(cpuinfo@, CharClass::Is('\n')),
                "processor"@,
            );
            r == (if n == 0 {
                1
            } else {
                n
            })
        }),
        r == processors(cpuinfo@),
{
    let lines = text::split(cpuinfo, CharClass::Is('\n'));
    let ghost all = text::views(lines@);
    let mut n: usize = 0;
    let mut i: usize = 0;
    while i < lines.len()
        invariant
            i <= lines.len(),
            all == text::views(lines@),
            n == lines_with(all.take(i as int), "processor"@),
            n <= i,
        decreases lines.len() - i,
    {
        proof {
            assert(all.take(i + 1).drop_last() =~= all.take(i as int));
            assert(all.take(i + 1).last() == lines@[i as int]@);
        }
        if text::starts_with(lines[i].as_str(), "processor") {
            n += 1;
        }
        i += 1;
    }
    proof {
        assert(all.take(i as int) =~= all);
    }
    if n == 0 {
        1
    } else {
        n
    }
}

// ── Laws ──────────────────────────────────────────────────────────────────

/// The memory is what the last line with a number says of it: the total by one line, what is
/// available by another. No other line says anything, and neither touches what the other says.
pub proof fn law_memory_by_line(lines: Seq<Seq<char>>, line: Seq<char>, n: nat)
    requires
        n <= u64::MAX,
    ensures
        ({
            let words = text::words(line);
            let before = mem_lines(lines);
            let after = mem_lines(lines.push(line));
            let says = words.len() > 1 && words[1] == numbers::digits(n);
            &&& says && words[0] == "MemTotal:"@ ==> after.total == n && after.available
                == before.available
            &&& says && words[0] == "MemAvailable:"@ ==> after.available == n && after.total
                == before.total
            &&& words.len() > 1 && words[0] != "MemTotal:"@ && words[0] != "MemAvailable:"@ ==> after
                == before
            &&& words.len() < 2 ==> after == before
            &&& words.len() > 1 && numbers::parsed(words[1], u64::MAX as nat).is_none() ==> after
                == before
        }),
        mem_lines(Seq::empty()) == (MemInfo { total: 0, available: 0 }),
{
    reveal_strlit("MemTotal:");
    reveal_strlit("MemAvailable:");
    assert("MemTotal:"@.len() != "MemAvailable:"@.len());
    numbers::law_decimal_reads_back(n, u64::MAX as nat);
    assert(lines.push(line).drop_last() =~= lines);
    assert(lines.push(line).last() == line);
}

/// The lines that begin with a text are counted one by one: of two lists put together there are
/// as many as in each, and one line is one of them or not.
pub proof fn law_lines_are_counted(
    a: Seq<Seq<char>>,
    b: Seq<Seq<char>>,
    start: Seq<char>,
    rest: Seq<char>,
    other: Seq<char>,
)
    requires
        !text::begins(other, start),
    ensures
        lines_with(a + b, start) == lines_with(a, start) + lines_with(b, start),
        lines_with(seq![start + rest], start) == 1,
        lines_with(seq![other], start) == 0,
    decreases b.len(),
{
    let none = Seq::<Seq<char>>::empty();
    text::lemma_stands(Seq::empty(), start, rest);
    assert(seq![start + rest].drop_last() =~= none);
    assert(seq![other].drop_last() =~= none);
    assert(lines_with(none, start) == 0);
    assert(seq![start + rest].last() == start + rest);
    assert(seq![other].last() == other);
    if b.len() == 0 {
        assert(a + b =~= a);
    } else {
        law_lines_are_counted(a, b.drop_last(), start, rest, other);
        assert((a + b).drop_last() =~= a + b.drop_last());
        assert((a + b).last() == b.last());
    }
}

/// Megabytes are whole ones, of 1024 kilobytes each, and what is in use and what is available are
/// all that there is.
pub proof fn law_megabytes(kilobytes: int, mem: MemInfo)
    requires
        kilobytes >= 0,
    ensures
        1024 * megabytes(kilobytes) <= kilobytes < 1024 * (megabytes(kilobytes) + 1),
        mem.total >= mem.available ==> mem.used() + mem.available == mem.total,
        mem.total < mem.available ==> mem.used() == 0,
{
}

/// A machine has one processor at least. One more line about a processor is one more of them, and
/// any other line is none.
pub proof fn law_processors(cpuinfo: Seq<char>, rest: Seq<char>, other: Seq<char>)
    requires
        !rest.contains('\n'),
        !other.contains('\n'),
        !text::begins(other, "processor"@),
        processors(cpuinfo) > 1,
    ensures
        processors(cpuinfo + seq!['\n'] + "processor"@ + rest) == processors(cpuinfo) + 1,
        processors(cpuinfo + seq!['\n'] + other) == processors(cpuinfo),
        processors("processor"@ + rest) == 1,
        processors(other) == 1,
{
    reveal_strlit("processor");
    let class = CharClass::Is('\n');
    let line = "processor"@ + rest;
    let start = "processor"@;
    assert forall|i: int| 0 <= i < line.len() implies !class.has(#[trigger] line[i]) by {
        if i >= 9 {
            assert(line[i] == rest[i - 9]);
            assert(rest.contains(rest[i - 9]));
        }
    }
    assert forall|i: int| 0 <= i < other.len() implies !class.has(#[trigger] other[i]) by {
        assert(other.contains(other[i]));
    }
    text::lemma_split_one(line, class);
    text::lemma_split_one(other, class);
    text::lemma_split_around(cpuinfo, '\n', line, class);
    text::lemma_split_around(cpuinfo, '\n', other, class);
    assert(cpuinfo.push('\n') + line =~= cpuinfo + seq!['\n'] + "processor"@ + rest);
    assert(cpuinfo.push('\n') + other =~= cpuinfo + seq!['\n'] + other);
    let all = text::split_at_class(cpuinfo, class);
    law_lines_are_counted(all, seq![line], start, rest, other);
    law_lines_are_counted(all, seq![other], start, rest, other);
}

} // verus!
