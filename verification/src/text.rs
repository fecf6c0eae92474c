//! Character-level helpers: whitespace, trimming, and cutting a text into lines.

use vstd::prelude::*;
use vstd::string::*;

verus! {

/// The characters of a string slice, one element each.
pub fn to_chars(s: &str) -> (out: Vec<char>)
    ensures
        out@ == s@,
{
    let mut out: Vec<char> = Vec::new();
    for c in it: s.chars()
        invariant
            it.seq() == s@,
            out@ == s@.take(it.index()),
    {
        out.push(c);
    }
    out
}

/// Whether `text` begins with `prefix`, character for character.
pub fn starts_with(text: &str, prefix: &str) -> (r: bool)
    ensures
        r == prefix@.is_prefix_of(text@),
{
    let t = to_chars(text);
    let p = to_chars(prefix);
    if p.len() > t.len() {
        return false;
    }
    let mut i: usize = 0;
    while i < p.len()
        invariant
            0 <= i <= p.len() <= t.len(),
            p@ == prefix@,
            t@ == text@,
            forall|k: int| 0 <= k < i ==> p@[k] == t@[k],
        decreases p.len() - i,
    {
        if p[i] != t[i] {
            return false;
        }
        i += 1;
    }
    assert(prefix@ =~= text@.subrange(0, prefix@.len() as int));
    true
}

/// White space in the sense of Unicode's `White_Space` property.
pub open spec fn is_space(c: char) -> bool {
    let n = c as u32;
    ||| 0x09 <= n <= 0x0D
    ||| n == 0x20
    ||| n == 0x85
    ||| n == 0xA0
    ||| n == 0x1680
    ||| 0x2000 <= n <= 0x200A
    ||| n == 0x2028
    ||| n == 0x2029
    ||| n == 0x202F
    ||| n == 0x205F
    ||| n == 0x3000
}

/// Whether `c` is white space; see `is_space`.
pub fn is_whitespace(c: char) -> (r: bool)
    ensures
        r == is_space(c),
{
    let n: u32 = c as u32;
    (0x09 <= n && n <= 0x0D) || n == 0x20 || n == 0x85 || n == 0xA0 || n == 0x1680 || (0x2000 <= n
        && n <= 0x200A) || n == 0x2028 || n == 0x2029 || n == 0x202F || n == 0x205F || n == 0x3000
}

/// The first index in `from..to` that holds no white space, or `to` if there
/// is none.
pub open spec fn first_kept(s: Seq<char>, from: int, to: int) -> int
    decreases to - from,
{
    if from < to && is_space(s[from]) {
        first_kept(s, from + 1, to)
    } else {
        from
    }
}

/// The end of `from..to` once the white space at its end is cut off.
pub open spec fn last_kept(s: Seq<char>, from: int, to: int) -> int
    decreases to - from,
{
    if from < to && is_space(s[to - 1]) {
        last_kept(s, from, to - 1)
    } else {
        to
    }
}

/// `s[from..to]` without the white space at either end.
pub open spec fn trimmed(s: Seq<char>, from: int, to: int) -> Seq<char> {
    let start = first_kept(s, from, to);
    s.subrange(start, last_kept(s, start, to))
}

/// The index of the first line feed at or after `from`, or the length of `s`.
pub open spec fn line_end(s: Seq<char>, from: int) -> int
    decreases s.len() - from,
{
    if from < s.len() && s[from] != '\n' {
        line_end(s, from + 1)
    } else {
        from
    }
}

/// A line ends at or behind its start, and within the text.
pub proof fn line_end_bounds(s: Seq<char>, from: int)
    requires
        0 <= from <= s.len(),
    ensures
        from <= line_end(s, from) <= s.len(),
    decreases s.len() - from,
{
    if from < s.len() && s[from] != '\n' {
        line_end_bounds(s, from + 1);
    }
}

/// The lines of `s` from index `from` on, each trimmed, the empty ones left
/// out. A line ends at a line feed or at the end of the text.
pub open spec fn names_from(s: Seq<char>, from: int) -> Seq<Seq<char>>
    decreases s.len() - from,
    via names_from_terminates
{
    if 0 <= from < s.len() {
        let end = line_end(s, from);
        let name = trimmed(s, from, end);
        let rest = if end < s.len() {
            names_from(s, end + 1)
        } else {
            Seq::empty()
        };
        if name.len() > 0 {
            seq![name] + rest
        } else {
            rest
        }
    } else {
        Seq::empty()
    }
}

#[via_fn]
proof fn names_from_terminates(s: Seq<char>, from: int) {
    if 0 <= from < s.len() {
        line_end_bounds(s, from);
    }
}

/// The views of a vector of strings.
pub open spec fn views(v: Seq<String>) -> Seq<Seq<char>> {
    Seq::new(v.len(), |i: int| v[i]@)
}

/// Whether `item` is one of `list`.
pub fn is_among(item: &String, list: &Vec<String>) -> (found: bool)
    ensures
        found == views(list@).contains(item@),
{
    let mut i: usize = 0;
    while i < list.len()
        invariant
            0 <= i <= list.len(),
            forall|k: int| 0 <= k < i ==> (#[trigger] views(list@)[k]) != item@,
        decreases list.len() - i,
    {
        if list[i] == *item {
            assert(views(list@)[i as int] == item@);
            return true;
        }
        i += 1;
    }
    false
}

/// The non-empty trimmed lines of `content`, in order.
pub fn trimmed_lines(content: &str) -> (names: Vec<String>)
    ensures
        views(names@) == names_from(content@, 0),
{
    let chars = to_chars(content);
    let n = chars.len();
    let mut names: Vec<String> = Vec::new();
    let mut from: usize = 0;
    while from < n
        invariant
            chars@ == content@,
            n == chars.len(),
            0 <= from <= n,
            views(names@) + names_from(content@, from as int) == names_from(content@, 0),
        decreases n - from,
    {
        let ghost old_from: usize = from;
        let mut end: usize = from;
        while end < n && chars[end] != '\n'
            invariant
                chars@ == content@,
                n == chars.len(),
                from <= end <= n,
                line_end(content@, end as int) == line_end(content@, from as int),
            decreases n - end,
        {
            end += 1;
        }
        let mut start: usize = from;
        while start < end && is_whitespace(chars[start])
            invariant
                chars@ == content@,
                n == chars.len(),
                from <= start <= end <= n,
                first_kept(content@, start as int, end as int) == first_kept(
                    content@,
                    from as int,
                    end as int,
                ),
            decreases end - start,
        {
            start += 1;
        }
        let mut stop: usize = end;
        while start < stop && is_whitespace(chars[stop - 1])
            invariant
                chars@ == content@,
                n == chars.len(),
                start <= stop <= end <= n,
                last_kept(content@, start as int, stop as int) == last_kept(
                    content@,
                    start as int,
                    end as int,
                ),
            decreases stop - start,
        {
            stop -= 1;
        }
        let ghost before = views(names@);
        if start < stop {
            let name = String::from_str(content.substring_char(start, stop));
            names.push(name);
            assert(views(names@) =~= before + seq![trimmed(content@, from as int, end as int)]);
        }
        from = if end < n {
            end + 1
        } else {
            n
        };
        assert(views(names@) + names_from(content@, from as int) =~= before + names_from(
            content@,
            old_from as int,
        ));
    }
    assert(names_from(content@, from as int) =~= Seq::empty());
    names
}

} // verus!
