//! Pure helpers of the interactive shell: color names.
use vstd::prelude::*;
use vstd::string::StrSliceExecFns;
use crate::console::Console;
use crate::filesystem::{is_whitespace, spec_is_whitespace, trim_bounds_range, trimmed};
use vstd::string::StringExecFns;

verus! {

/// Whether `a` and `b` hold the same characters.
pub fn str_eq(a: &str, b: &str) -> (r: bool)
    ensures
        r == (a@ == b@),
{
    let n = a.unicode_len();
    if n != b.unicode_len() {
        return false;
    }
    let mut i: usize = 0;
    while i < n
        invariant
            n == a@.len(),
            n == b@.len(),
            0 <= i <= n,
            forall|j: int| 0 <= j < i ==> a@[j] == b@[j],
        decreases n - i,
    {
        if a.get_char(i) != b.get_char(i) {
            return false;
        }
        i = i + 1;
    }
    assert(a@ =~= b@);
    true
}

/// The color a shell color name stands for.
pub open spec fn spec_parse_color(name: Seq<char>) -> Option<(u8, u8, u8)> {
    if name == seq!['w', 'h', 'i', 't', 'e'] {
        Some((255u8, 255u8, 255u8))
    } else if name == seq!['r', 'e', 'd'] {
        Some((255u8, 0u8, 0u8))
    } else if name == seq!['g', 'r', 'e', 'e', 'n'] {
        Some((0u8, 255u8, 0u8))
    } else if name == seq!['b', 'l', 'u', 'e'] {
        Some((0u8, 0u8, 255u8))
    } else if name == seq!['c', 'y', 'a', 'n'] {
        Some((0u8, 255u8, 255u8))
    } else if name == seq!['y', 'e', 'l', 'l', 'o', 'w'] {
        Some((255u8, 255u8, 0u8))
    } else if name == seq!['m', 'a', 'g', 'e', 'n', 't', 'a'] {
        Some((255u8, 0u8, 255u8))
    } else if name == seq!['b', 'l', 'a', 'c', 'k'] {
        Some((0u8, 0u8, 0u8))
    } else if name == seq!['g', 'r', 'a', 'y'] || name == seq!['g', 'r', 'e', 'y'] {
        Some((128u8, 128u8, 128u8))
    } else if name == seq!['o', 'r', 'a', 'n', 'g', 'e'] {
        Some((255u8, 165u8, 0u8))
    } else {
        None
    }
}

/// The color named `name`, if the shell knows the name.
pub fn parse_color(name: &str) -> (r: Option<(u8, u8, u8)>)
    ensures
        r == spec_parse_color(name@),
{
    proof {
        reveal_strlit("white");
        reveal_strlit("red");
        reveal_strlit("green");
        reveal_strlit("blue");
        reveal_strlit("cyan");
        reveal_strlit("yellow");
        reveal_strlit("magenta");
        reveal_strlit("black");
        reveal_strlit("gray");
        reveal_strlit("grey");
        reveal_strlit("orange");
    }
    if str_eq(name, "white") {
        assert("white"@ =~= seq!['w', 'h', 'i', 't', 'e']);
        Some((255, 255, 255))
    } else if str_eq(name, "red") {
        assert("red"@ =~= seq!['r', 'e', 'd']);
        Some((255, 0, 0))
    } else if str_eq(name, "green") {
        assert("green"@ =~= seq!['g', 'r', 'e', 'e', 'n']);
        Some((0, 255, 0))
    } else if str_eq(name, "blue") {
        assert("blue"@ =~= seq!['b', 'l', 'u', 'e']);
        Some((0, 0, 255))
    } else if str_eq(name, "cyan") {
        assert("cyan"@ =~= seq!['c', 'y', 'a', 'n']);
        Some((0, 255, 255))
    } else if str_eq(name, "yellow") {
        assert("yellow"@ =~= seq!['y', 'e', 'l', 'l', 'o', 'w']);
        Some((255, 255, 0))
    } else if str_eq(name, "magenta") {
        assert("magenta"@ =~= seq!['m', 'a', 'g', 'e', 'n', 't', 'a']);
        Some((255, 0, 255))
    } else if str_eq(name, "black") {
        assert("black"@ =~= seq!['b', 'l', 'a', 'c', 'k']);
        Some((0, 0, 0))
    } else if str_eq(name, "gray") || str_eq(name, "grey") {
        assert("gray"@ =~= seq!['g', 'r', 'a', 'y']);
        assert("grey"@ =~= seq!['g', 'r', 'e', 'y']);
        Some((128, 128, 128))
    } else if str_eq(name, "orange") {
        assert("orange"@ =~= seq!['o', 'r', 'a', 'n', 'g', 'e']);
        Some((255, 165, 0))
    } else {
        assert("white"@ =~= seq!['w', 'h', 'i', 't', 'e']);
        assert("red"@ =~= seq!['r', 'e', 'd']);
        assert("green"@ =~= seq!['g', 'r', 'e', 'e', 'n']);
        assert("blue"@ =~= seq!['b', 'l', 'u', 'e']);
        assert("cyan"@ =~= seq!['c', 'y', 'a', 'n']);
        assert("yellow"@ =~= seq!['y', 'e', 'l', 'l', 'o', 'w']);
        assert("magenta"@ =~= seq!['m', 'a', 'g', 'e', 'n', 't', 'a']);
        assert("black"@ =~= seq!['b', 'l', 'a', 'c', 'k']);
        assert("gray"@ =~= seq!['g', 'r', 'a', 'y']);
        assert("grey"@ =~= seq!['g', 'r', 'e', 'y']);
        assert("orange"@ =~= seq!['o', 'r', 'a', 'n', 'g', 'e']);
        None
    }
}

/// Sets the console's text color to the color named `name`; returns
/// whether the name was known (an unknown name changes nothing).
pub fn set_fg_color(console: &mut Console, name: &str) -> (r: bool)
    ensures
        r == spec_parse_color(name@) is Some,
        match spec_parse_color(name@) {
            Some(c) => *final(console) == (Console { fg: c, ..*old(console) }),
            None => *final(console) == *old(console),
        },
{
    match parse_color(name) {
        Some((r, g, b)) => {
            console.set_fg(r, g, b);
            true
        },
        None => false,
    }
}


/// The shell's commands.
#[derive(Clone, Copy, PartialEq, Eq, Structural, Debug)]
pub enum Command {
    Help,
    Echo,
    Clear,
    Info,
    Halt,
    Panic,
    Page,
    Color,
    Draw,
    Ls,
    Cat,
    Touch,
    Mkdir,
    Rm,
    Cd,
    Pwd,
    Write,
    Screenfill,
    /// A name the shell does not know.
    Unknown,
}

/// The command a command name stands for.
pub open spec fn command_of(name: Seq<char>) -> Command {
    if name == seq!['h', 'e', 'l', 'p'] {
        Command::Help
    } else if name == seq!['e', 'c', 'h', 'o'] {
        Command::Echo
    } else if name == seq!['c', 'l', 'e', 'a', 'r'] {
        Command::Clear
    } else if name == seq!['i', 'n', 'f', 'o'] {
        Command::Info
    } else if name == seq!['h', 'a', 'l', 't'] {
        Command::Halt
    } else if name == seq!['p', 'a', 'n', 'i', 'c'] {
        Command::Panic
    } else if name == seq!['p', 'a', 'g', 'e'] {
        Command::Page
    } else if name == seq!['c', 'o', 'l', 'o', 'r'] {
        Command::Color
    } else if name == seq!['d', 'r', 'a', 'w'] {
        Command::Draw
    } else if name == seq!['l', 's'] {
        Command::Ls
    } else if name == seq!['c', 'a', 't'] {
        Command::Cat
    } else if name == seq!['t', 'o', 'u', 'c', 'h'] {
        Command::Touch
    } else if name == seq!['m', 'k', 'd', 'i', 'r'] {
        Command::Mkdir
    } else if name == seq!['r', 'm'] {
        Command::Rm
    } else if name == seq!['c', 'd'] {
        Command::Cd
    } else if name == seq!['p', 'w', 'd'] {
        Command::Pwd
    } else if name == seq!['w', 'r', 'i', 't', 'e'] {
        Command::Write
    } else if name == seq!['s', 'c', 'r', 'e', 'e', 'n', 'f', 'i', 'l', 'l'] {
        Command::Screenfill
    } else {
        Command::Unknown
    }
}

/// Index of the first space of `s`, if any.
pub open spec fn first_space(s: Seq<char>) -> int
    decreases s.len(),
{
    if s.len() == 0 {
        -1
    } else if s[0] == ' ' {
        0
    } else if first_space(s.subrange(1, s.len() as int)) < 0 {
        -1
    } else {
        1 + first_space(s.subrange(1, s.len() as int))
    }
}

/// A command line split into its name and its arguments: the line without
/// white space at either end, split at its first space; the arguments
/// trimmed too. A blank line has an empty name.
pub open spec fn spec_split_command(line: Seq<char>) -> (Seq<char>, Seq<char>) {
    let t = trimmed(line);
    let i = first_space(t);
    if i < 0 {
        (t, Seq::empty())
    } else {
        (t.subrange(0, i), trimmed(t.subrange(i + 1, t.len() as int)))
    }
}

/// A parsed command line.
pub struct CommandLine {
    pub command: Command,
    pub name: String,
    pub args: String,
}

proof fn lemma_first_space(s: Seq<char>, k: int)
    requires
        0 <= k <= s.len(),
        forall|j: int| 0 <= j < k ==> s[j] != ' ',
        k < s.len() ==> s[k] == ' ',
    ensures
        first_space(s) == (if k < s.len() { k } else { -1 }),
    decreases k,
{
    if k > 0 {
        let rest = s.subrange(1, s.len() as int);
        assert(s[0] != ' ');
        assert forall|j: int| 0 <= j < k - 1 implies rest[j] != ' ' by {
            assert(rest[j] == s[j + 1]);
        }
        if k < s.len() {
            assert(rest[k - 1] == s[k]);
        }
        lemma_first_space(rest, k - 1);
    }
}

/// Index, within `lo..hi` of `s`, of the first space, or `hi`.
fn find_space(s: &str, lo: usize, hi: usize) -> (r: usize)
    requires
        lo <= hi <= s@.len(),
    ensures
        lo <= r <= hi,
        first_space(s@.subrange(lo as int, hi as int)) == (if r < hi { r - lo } else { -1 }),
{
    let mut k: usize = lo;
    while k < hi && s.get_char(k) != ' '
        invariant
            lo <= k <= hi <= s@.len(),
            forall|j: int| lo <= j < k ==> s@[j] != ' ',
        decreases hi - k,
    {
        k = k + 1;
    }
    proof {
        let t = s@.subrange(lo as int, hi as int);
        assert forall|j: int| 0 <= j < k - lo implies t[j] != ' ' by {
            assert(t[j] == s@[lo + j]);
        }
        if k < hi {
            assert(t[k - lo] == s@[k as int]);
        }
        lemma_first_space(t, k - lo);
    }
    k
}

/// The command named `name`.
pub fn command_named(name: &str) -> (r: Command)
    ensures
        r == command_of(name@),
{
    proof {
        reveal_strlit("help");
        reveal_strlit("echo");
        reveal_strlit("clear");
        reveal_strlit("info");
        reveal_strlit("halt");
        reveal_strlit("panic");
        reveal_strlit("page");
        reveal_strlit("color");
        reveal_strlit("draw");
        reveal_strlit("ls");
        reveal_strlit("cat");
        reveal_strlit("touch");
        reveal_strlit("mkdir");
        reveal_strlit("rm");
        reveal_strlit("cd");
        reveal_strlit("pwd");
        reveal_strlit("write");
        reveal_strlit("screenfill");
    }
    if str_eq(name, "help") {
        assert("help"@ =~= seq!['h', 'e', 'l', 'p']);
        Command::Help
    } else if str_eq(name, "echo") {
        assert("echo"@ =~= seq!['e', 'c', 'h', 'o']);
        Command::Echo
    } else if str_eq(name, "clear") {
        assert("clear"@ =~= seq!['c', 'l', 'e', 'a', 'r']);
        Command::Clear
    } else if str_eq(name, "info") {
        assert("info"@ =~= seq!['i', 'n', 'f', 'o']);
        Command::Info
    } else if str_eq(name, "halt") {
        assert("halt"@ =~= seq!['h', 'a', 'l', 't']);
        Command::Halt
    } else if str_eq(name, "panic") {
        assert("panic"@ =~= seq!['p', 'a', 'n', 'i', 'c']);
        Command::Panic
    } else if str_eq(name, "page") {
        assert("page"@ =~= seq!['p', 'a', 'g', 'e']);
        Command::Page
    } else if str_eq(name, "color") {
        assert("color"@ =~= seq!['c', 'o', 'l', 'o', 'r']);
        Command::Color
    } else if str_eq(name, "draw") {
        assert("draw"@ =~= seq!['d', 'r', 'a', 'w']);
        Command::Draw
    } else if str_eq(name, "ls") {
        assert("ls"@ =~= seq!['l', 's']);
        Command::Ls
    } else if str_eq(name, "cat") {
        assert("cat"@ =~= seq!['c', 'a', 't']);
        Command::Cat
    } else if str_eq(name, "touch") {
        assert("touch"@ =~= seq!['t', 'o', 'u', 'c', 'h']);
        Command::Touch
    } else if str_eq(name, "mkdir") {
        assert("mkdir"@ =~= seq!['m', 'k', 'd', 'i', 'r']);
        Command::Mkdir
    } else if str_eq(name, "rm") {
        assert("rm"@ =~= seq!['r', 'm']);
        Command::Rm
    } else if str_eq(name, "cd") {
        assert("cd"@ =~= seq!['c', 'd']);
        Command::Cd
    } else if str_eq(name, "pwd") {
        assert("pwd"@ =~= seq!['p', 'w', 'd']);
        Command::Pwd
    } else if str_eq(name, "write") {
        assert("write"@ =~= seq!['w', 'r', 'i', 't', 'e']);
        Command::Write
    } else if str_eq(name, "screenfill") {
        assert("screenfill"@ =~= seq!['s', 'c', 'r', 'e', 'e', 'n', 'f', 'i', 'l', 'l']);
        Command::Screenfill
    } else {
        assert("help"@ =~= seq!['h', 'e', 'l', 'p']);
        assert("echo"@ =~= seq!['e', 'c', 'h', 'o']);
        assert("clear"@ =~= seq!['c', 'l', 'e', 'a', 'r']);
        assert("info"@ =~= seq!['i', 'n', 'f', 'o']);
        assert("halt"@ =~= seq!['h', 'a', 'l', 't']);
        assert("panic"@ =~= seq!['p', 'a', 'n', 'i', 'c']);
        assert("page"@ =~= seq!['p', 'a', 'g', 'e']);
        assert("color"@ =~= seq!['c', 'o', 'l', 'o', 'r']);
        assert("draw"@ =~= seq!['d', 'r', 'a', 'w']);
        assert("ls"@ =~= seq!['l', 's']);
        assert("cat"@ =~= seq!['c', 'a', 't']);
        assert("touch"@ =~= seq!['t', 'o', 'u', 'c', 'h']);
        assert("mkdir"@ =~= seq!['m', 'k', 'd', 'i', 'r']);
        assert("rm"@ =~= seq!['r', 'm']);
        assert("cd"@ =~= seq!['c', 'd']);
        assert("pwd"@ =~= seq!['p', 'w', 'd']);
        assert("write"@ =~= seq!['w', 'r', 'i', 't', 'e']);
        assert("screenfill"@ =~= seq!['s', 'c', 'r', 'e', 'e', 'n', 'f', 'i', 'l', 'l']);
        Command::Unknown
    }
}

/// Splits a command line into its command, name and arguments.
pub fn parse_command(line: &str) -> (r: CommandLine)
    ensures
        (r.name@, r.args@) == spec_split_command(line@),
        r.command == command_of(r.name@),
{
    let n = line.unicode_len();
    assert(line@.subrange(0, n as int) =~= line@);
    let (tl, th) = trim_bounds_range(line, 0, n);
    let ghost t = line@.subrange(tl as int, th as int);
    let sp = find_space(line, tl, th);
    let (name, args) = if sp == th {
        (String::from_str(line.substring_char(tl, th)), String::new())
    } else {
        let (al, ah) = trim_bounds_range(line, sp + 1, th);
        proof {
            assert(t.subrange(0, sp - tl) =~= line@.subrange(tl as int, sp as int));
            assert(t.subrange(sp + 1 - tl, t.len() as int) =~= line@.subrange(sp + 1, th as int));
        }
        (String::from_str(line.substring_char(tl, sp)), String::from_str(line.substring_char(al, ah)))
    };
    proof {
        if sp == th {
            assert(args@ =~= Seq::<char>::empty());
        }
    }
    let command = command_named(name.as_str());
    CommandLine { command, name, args }
}

/// Splits `s` at its first space: the part before it and the part after it,
/// or `None` if it has no space.
pub fn split_first_space(s: &str) -> (r: Option<(String, String)>)
    ensures
        match r {
            Some((a, b)) => first_space(s@) >= 0 && a@ == s@.subrange(0, first_space(s@))
                && b@ == s@.subrange(first_space(s@) + 1, s@.len() as int),
            None => first_space(s@) < 0,
        },
{
    let n = s.unicode_len();
    assert(s@.subrange(0, n as int) =~= s@);
    let sp = find_space(s, 0, n);
    if sp == n {
        None
    } else {
        Some((String::from_str(s.substring_char(0, sp)), String::from_str(s.substring_char(sp + 1, n))))
    }
}


/// The words of `s`: its maximal runs of characters that are not white
/// space, in order.
pub open spec fn words(s: Seq<char>) -> Seq<Seq<char>>
    decreases s.len(),
{
    if s.len() == 0 {
        Seq::empty()
    } else {
        let ws = words(s.drop_last());
        let c = s.last();
        if spec_is_whitespace(c) {
            ws
        } else if s.len() >= 2 && !spec_is_whitespace(s[s.len() - 2]) {
            ws.update(ws.len() - 1, ws.last().push(c))
        } else {
            ws.push(seq![c])
        }
    }
}

proof fn lemma_words_nonempty_last(s: Seq<char>)
    requires
        s.len() >= 1,
        !spec_is_whitespace(s.last()),
    ensures
        words(s).len() >= 1,
    decreases s.len(),
{
    if s.len() >= 2 && !spec_is_whitespace(s[s.len() - 2]) {
        assert(s.drop_last().last() == s[s.len() - 2]);
        lemma_words_nonempty_last(s.drop_last());
    }
}

/// Splits `s` into its words.
pub fn split_words(s: &str) -> (r: Vec<String>)
    ensures
        r@.len() == words(s@).len(),
        forall|i: int| 0 <= i < r@.len() ==> (#[trigger] r@[i])@ == words(s@)[i],
{
    let n = s.unicode_len();
    let mut out: Vec<String> = Vec::new();
    let mut i: usize = 0;
    assert(s@.subrange(0, 0) =~= Seq::<char>::empty());
    while i < n
        invariant
            n == s@.len(),
            0 <= i <= n,
            out@.len() == words(s@.subrange(0, i as int)).len(),
            forall|k: int| 0 <= k < out@.len() ==> (#[trigger] out@[k])@ == words(s@.subrange(0, i as int))[k],
            0 < i < n ==> spec_is_whitespace(s@[i - 1]) || spec_is_whitespace(s@[i as int]),
        decreases n - i,
    {
        if is_whitespace(s.get_char(i)) {
            proof {
                let pre1 = s@.subrange(0, i + 1);
                assert(pre1.drop_last() =~= s@.subrange(0, i as int));
                assert(pre1.last() == s@[i as int]);
            }
            i = i + 1;
        } else {
            let start = i;
            let mut j: usize = i;
            while j < n && !is_whitespace(s.get_char(j))
                invariant
                    n == s@.len(),
                    start <= j <= n,
                    start < n,
                    !spec_is_whitespace(s@[start as int]),
                    forall|k: int| start <= k < j ==> !spec_is_whitespace(#[trigger] s@[k]),
                    start == i,
                    start == 0 || spec_is_whitespace(s@[start - 1]),
                decreases n - j,
            {
                j = j + 1;
            }
            proof {
                assert(j > start);
                lemma_words_run(s@, start as int, j as int);
            }
            out.push(String::from_str(s.substring_char(start, j)));
            i = j;
        }
    }
    assert(s@.subrange(0, n as int) =~= s@);
    out
}

/// A run of non-space characters `a..b`, after white space or the start,
/// adds exactly one word.
proof fn lemma_words_run(s: Seq<char>, a: int, b: int)
    requires
        0 <= a < b <= s.len(),
        forall|k: int| a <= k < b ==> !spec_is_whitespace(#[trigger] s[k]),
        a == 0 || spec_is_whitespace(s[a - 1]),
    ensures
        words(s.subrange(0, b)) == words(s.subrange(0, a)).push(s.subrange(a, b)),
    decreases b - a,
{
    let p = s.subrange(0, b);
    assert(p.drop_last() =~= s.subrange(0, b - 1));
    assert(p.last() == s[b - 1]);
    if b - a == 1 {
        if b >= 2 {
            assert(p[p.len() - 2] == s[b - 2]);
        }
        assert(seq![s[a]] =~= s.subrange(a, b));
    } else {
        lemma_words_run(s, a, b - 1);
        assert(p[p.len() - 2] == s[b - 2]);
        let ws = words(s.subrange(0, b - 1));
        assert(ws.last() == s.subrange(a, b - 1));
        assert(s.subrange(a, b - 1).push(s[b - 1]) =~= s.subrange(a, b));
        assert(ws.update(ws.len() - 1, ws.last().push(s[b - 1])) =~= words(s.subrange(0, a)).push(s.subrange(a, b)));
    }
}

/// The value of the decimal digits `d` (all ASCII digits).
pub open spec fn digits_value(d: Seq<char>) -> int
    decreases d.len(),
{
    if d.len() == 0 { 0 } else { digits_value(d.drop_last()) * 10 + (d.last() as int - '0' as int) }
}

pub open spec fn all_digits(d: Seq<char>) -> bool {
    forall|i: int| 0 <= i < d.len() ==> '0' <= #[trigger] d[i] && d[i] <= '9'
}

/// The number `s` spells as `str::parse` reads it: an optional sign (`-`
/// only where `signed`), then one or more ASCII digits.
pub open spec fn spec_parse_int(s: Seq<char>, signed: bool) -> Option<int> {
    let neg = signed && s.len() > 0 && s[0] == '-';
    let plus = s.len() > 0 && s[0] == '+';
    let d = if neg || plus { s.subrange(1, s.len() as int) } else { s };
    if d.len() == 0 || !all_digits(d) {
        None
    } else if neg {
        Some(-digits_value(d))
    } else {
        Some(digits_value(d))
    }
}

/// Reads the digits `lo..hi` of `s` as a number; `None` past `limit`.
fn read_digits(s: &str, lo: usize, hi: usize, limit: u64) -> (r: Option<u64>)
    requires
        lo <= hi <= s@.len(),
        limit >= 9,
    ensures
        match r {
            Some(v) => all_digits(s@.subrange(lo as int, hi as int)) && v == digits_value(s@.subrange(lo as int, hi as int))
                && v <= limit,
            None => !all_digits(s@.subrange(lo as int, hi as int)) || digits_value(s@.subrange(lo as int, hi as int)) > limit,
        },
{
    let mut v: u64 = 0;
    let mut i: usize = lo;
    assert(s@.subrange(lo as int, lo as int) =~= Seq::<char>::empty());
    while i < hi
        invariant
            lo <= i <= hi <= s@.len(),
            all_digits(s@.subrange(lo as int, i as int)),
            v == digits_value(s@.subrange(lo as int, i as int)),
            v <= limit,
            limit >= 9,
        decreases hi - i,
    {
        let c = s.get_char(i);
        let ghost pre1 = s@.subrange(lo as int, i + 1);
        assert(s@.subrange(lo as int, hi as int).subrange(0, i - lo) =~= s@.subrange(lo as int, i as int));
        assert(s@.subrange(lo as int, hi as int)[i - lo] == c);
        proof {
            assert(pre1.drop_last() =~= s@.subrange(lo as int, i as int));
            assert(pre1.last() == c);
        }
        if c < '0' || c > '9' {
            proof {
                let whole = s@.subrange(lo as int, hi as int);
                assert(whole[i - lo] == c);
            }
            return None;
        }
        assert(48 <= (c as u32) <= 57);
        let digit = (c as u32 - '0' as u32) as u64;
        if v > (limit - digit) / 10 {
            proof {
                lemma_digits_grow(s@.subrange(lo as int, hi as int), (i - lo) as int, v as int, digit as int, limit as int);
            }
            return None;
        }
        v = v * 10 + digit;
        i = i + 1;
        proof {
            assert forall|k: int| 0 <= k < pre1.len() implies '0' <= #[trigger] pre1[k] && pre1[k] <= '9' by {
                if k < pre1.len() - 1 {
                    assert(pre1[k] == s@.subrange(lo as int, i - 1)[k]);
                }
            }
        }
    }
    Some(v)
}

/// Once a prefix of digits exceeds `limit`, so does the whole (when all are
/// digits).
proof fn lemma_digits_grow(d: Seq<char>, k: int, v: int, digit: int, limit: int)
    requires
        0 <= k < d.len(),
        v == digits_value(d.subrange(0, k)),
        digit == d[k] as int - '0' as int,
        0 <= digit <= 9,
        0 <= v,
        v > (limit - digit) / 10,
        0 <= limit,
    ensures
        !all_digits(d) || digits_value(d) > limit,
    decreases d.len() - k,
{
    let pre1 = d.subrange(0, k + 1);
    assert(pre1.drop_last() =~= d.subrange(0, k));
    assert(pre1.last() == d[k]);
    assert(v * 10 + digit > limit) by (nonlinear_arith)
        requires v > (limit - digit) / 10, 0 <= digit <= 9, 0 <= limit;
    if all_digits(d) {
        lemma_digits_prefix_le(d, k + 1);
    }
}

proof fn lemma_digits_prefix_le(d: Seq<char>, k: int)
    requires
        0 <= k <= d.len(),
        all_digits(d),
    ensures
        digits_value(d.subrange(0, k)) <= digits_value(d),
        0 <= digits_value(d.subrange(0, k)),
    decreases d.len() - k,
{
    if k < d.len() {
        lemma_digits_prefix_le(d, k + 1);
        let pre1 = d.subrange(0, k + 1);
        assert(pre1.drop_last() =~= d.subrange(0, k));
        assert(pre1.last() == d[k]);
        assert('0' <= d[k] && d[k] <= '9');
    } else {
        assert(d.subrange(0, k) =~= d);
        lemma_digits_nonneg(d);
    }
}

proof fn lemma_digits_nonneg(d: Seq<char>)
    requires
        all_digits(d),
    ensures
        digits_value(d) >= 0,
    decreases d.len(),
{
    if d.len() > 0 {
        assert(all_digits(d.drop_last())) by {
            assert forall|i: int| 0 <= i < d.drop_last().len() implies '0' <= #[trigger] d.drop_last()[i] && d.drop_last()[i] <= '9' by {
                assert(d.drop_last()[i] == d[i]);
            }
        }
        lemma_digits_nonneg(d.drop_last());
        assert('0' <= d.last() && d.last() <= '9');
    }
}

/// `s` read as a `usize`, as `str::parse::<usize>` reads it.
pub fn parse_usize(s: &str) -> (r: Option<usize>)
    ensures
        match spec_parse_int(s@, false) {
            Some(v) => if v <= usize::MAX { r == Some(v as usize) } else { r is None },
            None => r is None,
        },
{
    let n = s.unicode_len();
    let lo: usize = if n > 0 && s.get_char(0) == '+' { 1 } else { 0 };
    if lo == n {
        assert(s@.subrange(lo as int, n as int).len() == 0);
        return None;
    }
    proof {
        if lo == 0 {
            assert(s@.subrange(0, n as int) =~= s@);
        }
    }
    match read_digits(s, lo, n, usize::MAX as u64) {
        Some(v) => Some(v as usize),
        None => None,
    }
}

/// `s` read as an `i32`, as `str::parse::<i32>` reads it.
pub fn parse_i32(s: &str) -> (r: Option<i32>)
    ensures
        match spec_parse_int(s@, true) {
            Some(v) => if i32::MIN <= v <= i32::MAX { r == Some(v as i32) } else { r is None },
            None => r is None,
        },
{
    let n = s.unicode_len();
    let neg = n > 0 && s.get_char(0) == '-';
    let plus = n > 0 && s.get_char(0) == '+';
    let lo: usize = if neg || plus { 1 } else { 0 };
    if lo == n {
        assert(s@.subrange(lo as int, n as int).len() == 0);
        return None;
    }
    proof {
        if lo == 0 {
            assert(s@.subrange(0, n as int) =~= s@);
        }
    }
    let limit: u64 = if neg { 0x8000_0000 } else { 0x7fff_ffff };
    match read_digits(s, lo, n, limit) {
        Some(v) => if neg {
            Some((0 - (v as i64)) as i32)
        } else {
            Some(v as i32)
        },
        None => None,
    }
}

} // verus!
