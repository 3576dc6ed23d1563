use vstd::prelude::*;
use vstd::string::StrSliceExecFns;

verus! {

/// Unicode `White_Space`, the characters that `str::trim` removes.
pub open spec fn is_white(c: char) -> bool {
    ('\u{9}' <= c && c <= '\u{d}') || c == ' ' || c == '\u{85}' || c == '\u{a0}' || c == '\u{1680}'
        || ('\u{2000}' <= c && c <= '\u{200a}') || c == '\u{2028}' || c == '\u{2029}' || c == '\u{202f}'
        || c == '\u{205f}' || c == '\u{3000}'
}

/// `s` without its leading white space.
pub open spec fn trim_start(s: Seq<char>) -> Seq<char>
    decreases s.len(),
{
    if s.len() > 0 && is_white(s[0]) {
        trim_start(s.drop_first())
    } else {
        s
    }
}

/// `s` without its trailing white space.
pub open spec fn trim_end(s: Seq<char>) -> Seq<char>
    decreases s.len(),
{
    if s.len() > 0 && is_white(s.last()) {
        trim_end(s.drop_last())
    } else {
        s
    }
}

/// `s` without white space at either end.
pub open spec fn trim(s: Seq<char>) -> Seq<char> {
    trim_end(trim_start(s))
}

/// The first position at or after `from` that holds `c`, or -1.
pub open spec fn find_char(s: Seq<char>, c: char, from: int) -> int
    decreases s.len() - from,
{
    if from < 0 || from >= s.len() {
        -1
    } else if s[from] == c {
        from
    } else {
        find_char(s, c, from + 1)
    }
}

/// The command a history line records: in the extended format
/// `: <time>:<elapsed>;<command>` the text after the first `;`, otherwise
/// the whole line; trimmed either way.
pub open spec fn line_command(line: Seq<char>) -> Seq<char> {
    if line.len() > 0 && line[0] == ':' && find_char(line, ';', 0) >= 0 {
        trim(line.subrange(find_char(line, ';', 0) + 1, line.len() as int))
    } else {
        trim(line)
    }
}

/// A call of this tool itself: `memo`, alone or with arguments.
pub open spec fn is_own_call(cmd: Seq<char>) -> bool {
    cmd == seq!['m', 'e', 'm', 'o'] || (cmd.len() >= 5 && cmd.subrange(0, 5) == seq![
        'm',
        'e',
        'm',
        'o',
        ' ',
    ])
}

/// A history line that yields a command worth saving.
pub open spec fn line_accepted(line: Seq<char>) -> bool {
    line_command(line).len() > 0 && !is_own_call(line_command(line))
}

/// Scanning `s` backwards: the lines that end at or before `end` are looked at
/// from the last to the first, where `s[i..end]` is the tail of the current
/// line; the command of the first line accepted, if any.
pub open spec fn scan_back(s: Seq<char>, i: int, end: int) -> Option<Seq<char>>
    decreases i,
{
    if i <= 0 {
        if line_accepted(s.subrange(0, end)) {
            Some(line_command(s.subrange(0, end)))
        } else {
            None
        }
    } else if s[i - 1] == '\n' {
        if line_accepted(s.subrange(i, end)) {
            Some(line_command(s.subrange(i, end)))
        } else {
            scan_back(s, i - 1, i - 1)
        }
    } else {
        scan_back(s, i - 1, end)
    }
}

/// The last command recorded in the text of a shell history file: lines are
/// split at `\n`, and the last line with a non-empty command that is not a
/// call of this tool wins.
pub open spec fn last_command_of(content: Seq<char>) -> Option<Seq<char>> {
    scan_back(content, content.len() as int, content.len() as int)
}

/// Whether `c` is Unicode white space.
pub fn is_white_char(c: char) -> (r: bool)
    ensures
        r == is_white(c),
{
    ('\u{9}' <= c && c <= '\u{d}') || c == ' ' || c == '\u{85}' || c == '\u{a0}' || c == '\u{1680}'
        || ('\u{2000}' <= c && c <= '\u{200a}') || c == '\u{2028}' || c == '\u{2029}' || c == '\u{202f}'
        || c == '\u{205f}' || c == '\u{3000}'
}

/// The characters of a text.
fn chars_of(s: &str) -> (r: Vec<char>)
    ensures
        r@ == s@,
{
    let mut out: Vec<char> = Vec::new();
    for c in it: s.chars()
        invariant
            out@ == it.history(),
    {
        out.push(c);
    }
    out
}

/// Where `trim(v[start..end])` lies in `v`.
fn trim_bounds(v: &Vec<char>, start: usize, end: usize) -> (r: (usize, usize))
    requires
        start <= end <= v@.len(),
    ensures
        start <= r.0 <= r.1 <= end,
        v@.subrange(r.0 as int, r.1 as int) == trim(v@.subrange(start as int, end as int)),
{
    let mut a = start;
    let ghost body = v@.subrange(a as int, end as int);
    while a < end && is_white_char(v[a])
        invariant
            start <= a <= end <= v@.len(),
            trim_start(body) == trim_start(v@.subrange(a as int, end as int)),
        decreases end - a,
    {
        assert(v@.subrange(a + 1, end as int) =~= v@.subrange(a as int, end as int).drop_first());
        a = a + 1;
    }
    assert(trim_start(body) == v@.subrange(a as int, end as int));
    let mut b = end;
    while a < b && is_white_char(v[b - 1])
        invariant
            start <= a <= b <= end <= v@.len(),
            trim(body) == trim_end(v@.subrange(a as int, b as int)),
        decreases b - a,
    {
        assert(v@.subrange(a as int, b - 1) =~= v@.subrange(a as int, b as int).drop_last());
        b = b - 1;
    }
    assert(trim(body) == v@.subrange(a as int, b as int));
    (a, b)
}

/// Where the command of the line `v[start..end]` lies in `v`.
fn command_bounds(v: &Vec<char>, start: usize, end: usize) -> (r: (usize, usize))
    requires
        start <= end <= v@.len(),
    ensures
        start <= r.0 <= r.1 <= end,
        v@.subrange(r.0 as int, r.1 as int) == line_command(v@.subrange(start as int, end as int)),
{
    let ghost line = v@.subrange(start as int, end as int);
    let mut a = start;
    if start < end {
        assert(line[0] == v@[start as int]);
    }
    if start < end && v[start] == ':' {
        let mut j = start;
        while j < end && v[j] != ';'
            invariant
                start <= j <= end,
                end <= v@.len(),
                line == v@.subrange(start as int, end as int),
                find_char(line, ';', 0) == find_char(line, ';', (j - start) as int),
            decreases end - j,
        {
            assert(line[(j - start) as int] == v@[j as int]);
            j = j + 1;
        }
        if j < end {
            assert(line[(j - start) as int] == ';');
            assert(find_char(line, ';', 0) == j - start);
            assert(line.subrange(j - start + 1, line.len() as int) =~= v@.subrange(j + 1, end as int));
            a = j + 1;
        } else {
            assert(find_char(line, ';', (end - start) as int) == -1);
            assert(v@.subrange(a as int, end as int) == line);
        }
    } else {
        assert(v@.subrange(a as int, end as int) == line);
    }
    assert(trim(v@.subrange(a as int, end as int)) == line_command(line));
    trim_bounds(v, a, end)
}

/// Whether `v[a..b]` is a call of this tool.
fn is_own_call_at(v: &Vec<char>, a: usize, b: usize) -> (r: bool)
    requires
        a <= b <= v@.len(),
    ensures
        r == is_own_call(v@.subrange(a as int, b as int)),
{
    let ghost cmd = v@.subrange(a as int, b as int);
    let n = b - a;
    if n < 4 {
        assert(seq!['m', 'e', 'm', 'o'].len() == 4);
        return false;
    }
    let head = v[a] == 'm' && v[a + 1] == 'e' && v[a + 2] == 'm' && v[a + 3] == 'o';
    if n == 4 {
        if head {
            assert(cmd =~= seq!['m', 'e', 'm', 'o']);
        } else {
            assert(cmd != seq!['m', 'e', 'm', 'o']) by {
                assert(seq!['m', 'e', 'm', 'o'][0] == 'm' && seq!['m', 'e', 'm', 'o'][1] == 'e');
                assert(seq!['m', 'e', 'm', 'o'][2] == 'm' && seq!['m', 'e', 'm', 'o'][3] == 'o');
            }
        }
        return head;
    }
    let r = head && v[a + 4] == ' ';
    let ghost five = seq!['m', 'e', 'm', 'o', ' '];
    assert(cmd.len() != 4);
    if r {
        assert(cmd.subrange(0, 5) =~= five);
    } else {
        assert(cmd.subrange(0, 5) != five) by {
            assert(five[0] == 'm' && five[1] == 'e' && five[2] == 'm' && five[3] == 'o' && five[4] == ' ');
            assert(cmd.subrange(0, 5)[0] == v@[a as int]);
            assert(cmd.subrange(0, 5)[1] == v@[a + 1]);
            assert(cmd.subrange(0, 5)[2] == v@[a + 2]);
            assert(cmd.subrange(0, 5)[3] == v@[a + 3]);
            assert(cmd.subrange(0, 5)[4] == v@[a + 4]);
        }
    }
    r
}

/// The last command recorded in the text of a shell history file, if any:
/// the command of the last line whose command is not empty and is not a call
/// of this tool (see `last_command_of`).
pub fn last_history_command(content: &str) -> (r: Option<String>)
    ensures
        r is None <==> last_command_of(content@) is None,
        r matches Some(c) ==> last_command_of(content@) == Some(c@),
{
    let v = chars_of(content);
    let n = v.len();
    let mut i = n;
    let mut end = n;
    while i > 0
        invariant
            i <= end <= n,
            n == v@.len(),
            v@ == content@,
            scan_back(v@, n as int, n as int) == scan_back(v@, i as int, end as int),
        decreases i,
    {
        if v[i - 1] == '\n' {
            let (a, b) = command_bounds(&v, i, end);
            if a < b && !is_own_call_at(&v, a, b) {
                return Some(content.substring_char(a, b).to_owned());
            }
            end = i - 1;
        }
        i = i - 1;
    }
    let (a, b) = command_bounds(&v, 0, end);
    if a < b && !is_own_call_at(&v, a, b) {
        Some(content.substring_char(a, b).to_owned())
    } else {
        None
    }
}

/// `s` without white space at either end.
pub fn trimmed(s: &str) -> (r: String)
    ensures
        r@ == trim(s@),
{
    let v = chars_of(s);
    let n = v.len();
    assert(v@.subrange(0, n as int) =~= v@);
    let (a, b) = trim_bounds(&v, 0, n);
    s.substring_char(a, b).to_owned()
}

} // verus!
