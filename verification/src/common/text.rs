//! Text primitives over sequences of characters: white space, trimming,
//! splitting into lines and joining them back, file extensions and decimal
//! numerals.

use vstd::prelude::*;
use vstd::string::*;

verus! {

/// `String::push` of the standard library: the character is added at the
/// end of the string and nothing else changes.
pub assume_specification[ String::push ](s: &mut String, c: char)
    ensures
        final(s)@ == old(s)@.push(c),
;

/// The views of a sequence of strings, one by one.
pub open spec fn texts(v: Seq<String>) -> Seq<Seq<char>> {
    Seq::new(v.len(), |i: int| v[i]@)
}

/// The text of an optional string.
pub open spec fn text_of(s: Option<String>) -> Option<Seq<char>> {
    match s {
        Some(t) => Some(t@),
        None => None,
    }
}

/// White space as Unicode defines it (the property `White_Space`).
pub open spec fn is_space(c: char) -> bool {
    let n = c as u32;
    ||| 0x09 <= n <= 0x0D
    ||| n == 0x20
    ||| n == 0x85
    ||| n == 0xA0
    ||| n == 0x1680
    ||| 0x2000 <= n <= 0x200A
    ||| n == 0x2028
    ||| n == 0x2029
    ||| n == 0x202F
    ||| n == 0x205F
    ||| n == 0x3000
}

/// The first position at or after `i` that holds no white space, or the
/// length of `s` where only white space follows.
pub open spec fn skip_spaces(s: Seq<char>, i: int) -> int
    decreases s.len() - i,
{
    if 0 <= i < s.len() && is_space(s[i]) {
        skip_spaces(s, i + 1)
    } else {
        i
    }
}

/// The least end `e` in `lo..=j` such that `s[e..j]` is white space only.
pub open spec fn drop_spaces(s: Seq<char>, lo: int, j: int) -> int
    decreases j - lo,
{
    if lo < j <= s.len() && 0 < j && is_space(s[j - 1]) {
        drop_spaces(s, lo, j - 1)
    } else {
        j
    }
}

/// `s` without its leading and trailing white space.
pub open spec fn trim(s: Seq<char>) -> Seq<char> {
    let a = skip_spaces(s, 0);
    s.subrange(a, drop_spaces(s, a, s.len() as int))
}

/// A line without the carriage return that may precede its line feed.
pub open spec fn strip_cr(s: Seq<char>) -> Seq<char> {
    if s.len() > 0 && s.last() == '\r' {
        s.drop_last()
    } else {
        s
    }
}

/// The lines of `s` from the line that starts at `start`, where `start..i`
/// is known to hold no line feed.
pub open spec fn lines_from(s: Seq<char>, start: int, i: int) -> Seq<Seq<char>>
    decreases s.len() - i,
{
    if i >= s.len() {
        if start < s.len() {
            seq![s.subrange(start, s.len() as int)]
        } else {
            Seq::empty()
        }
    } else if s[i] == '\n' {
        seq![strip_cr(s.subrange(start, i))] + lines_from(s, i + 1, i + 1)
    } else {
        lines_from(s, start, i + 1)
    }
}

/// The lines of a text. A line ends with a line feed, or with a carriage
/// return and a line feed; the last line needs no ending, and an empty text
/// has no line.
pub open spec fn split_lines(s: Seq<char>) -> Seq<Seq<char>> {
    lines_from(s, 0, 0)
}

/// The text that holds each of `lines` followed by a line feed.
pub open spec fn join_lines(lines: Seq<Seq<char>>) -> Seq<char>
    decreases lines.len(),
{
    if lines.len() == 0 {
        Seq::empty()
    } else {
        join_lines(lines.drop_last()) + lines.last().push('\n')
    }
}

/// Tells whether a line is free of line feeds.
pub open spec fn holds_no_line_feed(line: Seq<char>) -> bool {
    forall|i: int| 0 <= i < line.len() ==> line[i] != '\n'
}

/// A line that survives being written and read back: it holds no line feed
/// and does not end with a carriage return.
pub open spec fn is_plain_line(line: Seq<char>) -> bool {
    &&& holds_no_line_feed(line)
    &&& line.len() > 0 ==> line.last() != '\r'
}

/// The position after the last `.` in `s[..j]`, or 0 where it holds none.
pub open spec fn after_last_dot(s: Seq<char>, j: int) -> int
    decreases j,
{
    if j <= 0 || j > s.len() {
        0
    } else if s[j - 1] == '.' {
        j
    } else {
        after_last_dot(s, j - 1)
    }
}

/// What follows the last `.` of a path; the whole path where it has none.
pub open spec fn extension_of(path: Seq<char>) -> Seq<char> {
    path.subrange(after_last_dot(path, path.len() as int), path.len() as int)
}

/// `s` after the prefix `p` was taken off as often as it stands in front.
pub open spec fn strip_leading(s: Seq<char>, p: Seq<char>) -> Seq<char>
    decreases s.len(),
{
    if p.len() > 0 && p.is_prefix_of(s) {
        strip_leading(s.skip(p.len() as int), p)
    } else {
        s
    }
}

/// `s` with an underscore in place of each space.
pub open spec fn underscored(s: Seq<char>) -> Seq<char> {
    s.map_values(|c: char| if c == ' ' { '_' } else { c })
}

/// The digit character of `d`, for `d` below ten.
pub open spec fn digit_char(d: nat) -> char {
    (('0' as u32) + d) as char
}

/// The decimal numeral of `n`, without leading zeros.
pub open spec fn decimal(n: nat) -> Seq<char>
    decreases n,
{
    if n < 10 {
        seq![digit_char(n)]
    } else {
        decimal(n / 10).push(digit_char(n % 10))
    }
}

/// Tells whether `c` is white space.
pub fn is_whitespace(c: char) -> (b: bool)
    ensures
        b == is_space(c),
{
    let n: u32 = c as u32;
    (0x09 <= n && n <= 0x0D) || n == 0x20 || n == 0x85 || n == 0xA0 || n == 0x1680 || (0x2000 <= n
        && n <= 0x200A) || n == 0x2028 || n == 0x2029 || n == 0x202F || n == 0x205F || n
        == 0x3000
}

/// The characters of `s`, in order, as a vector that can be indexed in
/// constant time.
pub fn chars_of(s: &str) -> (v: Vec<char>)
    ensures
        v@ == s@,
{
    let mut v: Vec<char> = Vec::new();
    for c in it: s.chars()
        invariant
            it.seq() == s@,
            v@ == s@.take(it.index() as int),
    {
        v.push(c);
    }
    v
}

/// The string made of `v[from..to]`.
pub fn string_of(v: &Vec<char>, from: usize, to: usize) -> (s: String)
    requires
        from <= to <= v@.len(),
    ensures
        s@ == v@.subrange(from as int, to as int),
{
    let mut s = String::new();
    let mut i: usize = from;
    while i < to
        invariant
            from <= i <= to <= v@.len(),
            s@ == v@.subrange(from as int, i as int),
        decreases to - i,
    {
        s.push(v[i]);
        i += 1;
        assert(s@ =~= v@.subrange(from as int, i as int));
    }
    s
}

/// The bounds of `v` without its leading and trailing white space.
pub fn trim_bounds(v: &Vec<char>) -> (r: (usize, usize))
    ensures
        r.0 <= r.1 <= v@.len(),
        r.0 == skip_spaces(v@, 0),
        r.1 == drop_spaces(v@, r.0 as int, v@.len() as int),
{
    let n: usize = v.len();
    let mut a: usize = 0;
    while a < n && is_whitespace(v[a])
        invariant
            a <= n == v@.len(),
            skip_spaces(v@, a as int) == skip_spaces(v@, 0),
        decreases n - a,
    {
        a += 1;
    }
    let mut b: usize = n;
    while b > a && is_whitespace(v[b - 1])
        invariant
            a <= b <= n == v@.len(),
            drop_spaces(v@, a as int, b as int) == drop_spaces(v@, a as int, n as int),
        decreases b,
    {
        b -= 1;
    }
    (a, b)
}

/// `s` without its leading and trailing white space.
pub fn trimmed(s: &str) -> (r: String)
    ensures
        r@ == trim(s@),
{
    let v = chars_of(s);
    let (a, b) = trim_bounds(&v);
    string_of(&v, a, b)
}

/// Tells whether two texts hold the same characters.
pub fn same_text(a: &str, b: &str) -> (r: bool)
    ensures
        r == (a@ == b@),
{
    let x = chars_of(a);
    let y = chars_of(b);
    if x.len() != y.len() {
        return false;
    }
    let mut i: usize = 0;
    while i < x.len()
        invariant
            x@ == a@,
            y@ == b@,
            i <= x@.len() == y@.len(),
            x@.take(i as int) == y@.take(i as int),
        decreases x@.len() - i,
    {
        if x[i] != y[i] {
            assert(a@[i as int] != b@[i as int]);
            return false;
        }
        i += 1;
        assert(x@.take(i as int) =~= x@.take(i - 1).push(x@[i - 1]));
        assert(y@.take(i as int) =~= y@.take(i - 1).push(y@[i - 1]));
    }
    assert(x@ =~= x@.take(i as int));
    assert(y@ =~= y@.take(i as int));
    true
}

/// The lines of `content`.
pub fn lines_of(content: &str) -> (lines: Vec<String>)
    ensures
        texts(lines@) == split_lines(content@),
{
    let v = chars_of(content);
    let n: usize = v.len();
    let mut lines: Vec<String> = Vec::new();
    let mut start: usize = 0;
    let mut i: usize = 0;
    assert(texts(lines@) + lines_from(v@, 0, 0) =~= split_lines(v@));
    while i < n
        invariant
            start <= i <= n == v@.len(),
            texts(lines@) + lines_from(v@, start as int, i as int) == split_lines(v@),
        decreases n - i,
    {
        if v[i] == '\n' {
            let end: usize = if start < i && v[i - 1] == '\r' {
                i - 1
            } else {
                i
            };
            let line = string_of(&v, start, end);
            let ghost before = texts(lines@);
            assert(line@ =~= strip_cr(v@.subrange(start as int, i as int)));
            lines.push(line);
            assert(texts(lines@) =~= before.push(line@));
            assert(before.push(line@) + lines_from(v@, i + 1, i + 1) =~= before + (seq![line@]
                + lines_from(v@, i + 1, i + 1)));
            start = i + 1;
        }
        i += 1;
    }
    if start < n {
        let line = string_of(&v, start, n);
        let ghost before = texts(lines@);
        lines.push(line);
        assert(texts(lines@) =~= before + seq![line@]);
    } else {
        assert(texts(lines@) + Seq::<Seq<char>>::empty() =~= texts(lines@));
    }
    lines
}

/// The text that holds each of `lines` followed by a line feed.
pub fn joined(lines: &Vec<String>) -> (s: String)
    ensures
        s@ == join_lines(texts(lines@)),
{
    let mut s = String::new();
    let mut i: usize = 0;
    while i < lines.len()
        invariant
            i <= lines@.len(),
            s@ == join_lines(texts(lines@).take(i as int)),
        decreases lines@.len() - i,
    {
        let ghost upto = texts(lines@).take(i + 1);
        assert(upto.drop_last() =~= texts(lines@).take(i as int));
        assert(upto.last() == lines@[i as int]@);
        s.append(lines[i].as_str());
        s.push('\n');
        assert(s@ =~= join_lines(upto.drop_last()) + upto.last().push('\n'));
        i += 1;
    }
    assert(texts(lines@).take(i as int) =~= texts(lines@));
    s
}

/// What follows the last `.` of `path`; the whole of it where it has none.
pub fn extension(path: &str) -> (r: String)
    ensures
        r@ == extension_of(path@),
{
    let v = chars_of(path);
    let n: usize = v.len();
    let mut j: usize = n;
    while j > 0 && v[j - 1] != '.'
        invariant
            j <= n == v@.len(),
            after_last_dot(v@, j as int) == after_last_dot(v@, n as int),
        decreases j,
    {
        j -= 1;
    }
    string_of(&v, j, n)
}

/// Tells whether `p` stands in `v` at position `k`.
pub fn has_prefix_at(v: &Vec<char>, k: usize, p: &Vec<char>) -> (b: bool)
    requires
        k <= v@.len(),
    ensures
        b == p@.is_prefix_of(v@.skip(k as int)),
{
    let n: usize = v.len();
    let m: usize = p.len();
    if m > n - k {
        return false;
    }
    let ghost rest = v@.skip(k as int);
    let mut j: usize = 0;
    while j < m
        invariant
            j <= m == p@.len(),
            k + m <= n == v@.len(),
            rest == v@.skip(k as int),
            forall|i: int| 0 <= i < j ==> p@[i] == rest[i],
        decreases m - j,
    {
        if v[k + j] != p[j] {
            assert(rest.subrange(0, m as int)[j as int] != p@[j as int]);
            return false;
        }
        j += 1;
    }
    assert(p@ =~= rest.subrange(0, m as int));
    true
}

/// `s` after `prefix` was taken off as often as it stands in front.
pub fn stripped(s: &str, prefix: &str) -> (r: String)
    ensures
        r@ == strip_leading(s@, prefix@),
{
    let v = chars_of(s);
    let p = chars_of(prefix);
    let n: usize = v.len();
    let mut k: usize = 0;
    assert(v@.skip(0) =~= v@);
    if p.len() > 0 {
        while has_prefix_at(&v, k, &p)
            invariant
                k <= n == v@.len(),
                p@.len() > 0,
                strip_leading(v@.skip(k as int), p@) == strip_leading(v@, p@),
            decreases n - k,
        {
            assert(v@.skip(k as int).skip(p@.len() as int) =~= v@.skip(k + p@.len()));
            k += p.len();
        }
    }
    assert(v@.skip(k as int) =~= v@.subrange(k as int, n as int));
    string_of(&v, k, n)
}

/// `s` with an underscore in place of each space.
pub fn with_underscores(s: &str) -> (r: String)
    ensures
        r@ == underscored(s@),
{
    let v = chars_of(s);
    let mut r = String::new();
    let mut i: usize = 0;
    while i < v.len()
        invariant
            i <= v@.len(),
            r@ == underscored(v@.take(i as int)),
        decreases v@.len() - i,
    {
        let c: char = if v[i] == ' ' {
            '_'
        } else {
            v[i]
        };
        r.push(c);
        i += 1;
        assert(r@ =~= underscored(v@.take(i as int)));
    }
    assert(v@.take(i as int) =~= v@);
    r
}

/// The character of a digit below ten.
pub fn digit(d: u8) -> (c: char)
    requires
        d < 10,
    ensures
        c == digit_char(d as nat),
{
    (48u8 + d) as char
}

/// The decimal numeral of `n`.
pub fn decimal_string(n: u64) -> (r: String)
    ensures
        r@ == decimal(n as nat),
    decreases n,
{
    if n < 10 {
        let mut r = String::new();
        r.push(digit(n as u8));
        assert(r@ =~= seq![digit_char(n as nat)]);
        r
    } else {
        let mut r = decimal_string(n / 10);
        r.push(digit((n % 10) as u8));
        r
    }
}

/// A line that runs from `start` to a line feed at `e` is the first line
/// found from `start`, and the search goes on behind the line feed.
pub proof fn lemma_scan_line(s: Seq<char>, start: int, i: int, e: int)
    requires
        0 <= start <= i <= e < s.len(),
        s[e] == '\n',
        forall|j: int| start <= j < e ==> s[j] != '\n',
    ensures
        lines_from(s, start, i) == seq![strip_cr(s.subrange(start, e))] + lines_from(
            s,
            e + 1,
            e + 1,
        ),
    decreases e - i,
{
    if i < e {
        lemma_scan_line(s, start, i + 1, e);
    }
}

/// Joined lines start with the first line and its line feed.
proof fn lemma_join_first(lines: Seq<Seq<char>>)
    requires
        lines.len() > 0,
    ensures
        join_lines(lines) == lines[0].push('\n') + join_lines(lines.skip(1)),
    decreases lines.len(),
{
    if lines.len() == 1 {
        assert(lines.drop_last() =~= lines.skip(1));
        assert(join_lines(lines.skip(1)) =~= Seq::<char>::empty());
        assert(join_lines(lines) =~= lines[0].push('\n') + join_lines(lines.skip(1)));
    } else {
        lemma_join_first(lines.drop_last());
        assert(lines.skip(1).drop_last() =~= lines.drop_last().skip(1));
        assert(join_lines(lines) =~= lines[0].push('\n') + join_lines(lines.skip(1)));
    }
}

/// Behind any text `p`, joined plain lines are read back as they were.
proof fn lemma_lines_after(p: Seq<char>, lines: Seq<Seq<char>>)
    requires
        forall|i: int| 0 <= i < lines.len() ==> is_plain_line(#[trigger] lines[i]),
    ensures
        lines_from(p + join_lines(lines), p.len() as int, p.len() as int) == lines,
    decreases lines.len(),
{
    let s = p + join_lines(lines);
    if lines.len() == 0 {
        assert(lines_from(s, p.len() as int, p.len() as int) =~= lines);
    } else {
        let first = lines[0];
        let rest = lines.skip(1);
        let e = p.len() + first.len();
        lemma_join_first(lines);
        assert(s =~= (p + first.push('\n')) + join_lines(rest));
        assert(is_plain_line(first));
        assert(s.subrange(p.len() as int, e as int) =~= first);
        assert forall|j: int| p.len() <= j < e implies s[j] != '\n' by {
            assert(s[j] == first[j - p.len()]);
        }
        lemma_scan_line(s, p.len() as int, p.len() as int, e as int);
        assert forall|i: int| 0 <= i < rest.len() implies is_plain_line(#[trigger] rest[i]) by {
            assert(rest[i] == lines[i + 1]);
        }
        lemma_lines_after(p + first.push('\n'), rest);
        assert(seq![first] + rest =~= lines);
    }
}

/// Lines that are written to a file and read back are the same lines, as
/// long as none holds a line feed or ends with a carriage return.
pub proof fn law_lines_round_trip(lines: Seq<Seq<char>>)
    requires
        forall|i: int| 0 <= i < lines.len() ==> is_plain_line(#[trigger] lines[i]),
    ensures
        split_lines(join_lines(lines)) == lines,
{
    lemma_lines_after(Seq::empty(), lines);
    assert(Seq::<char>::empty() + join_lines(lines) =~= join_lines(lines));
}

/// What `skip_spaces` skips is white space, and it stops at the first
/// character that is not.
proof fn lemma_skip_spaces(s: Seq<char>, i: int)
    requires
        0 <= i <= s.len(),
    ensures
        i <= skip_spaces(s, i) <= s.len(),
        forall|j: int| i <= j < skip_spaces(s, i) ==> is_space(s[j]),
        skip_spaces(s, i) < s.len() ==> !is_space(s[skip_spaces(s, i)]),
    decreases s.len() - i,
{
    if i < s.len() && is_space(s[i]) {
        lemma_skip_spaces(s, i + 1);
    }
}

/// What `drop_spaces` drops is white space, and it stops behind the last
/// character that is not.
proof fn lemma_drop_spaces(s: Seq<char>, lo: int, j: int)
    requires
        0 <= lo <= j <= s.len(),
    ensures
        lo <= drop_spaces(s, lo, j) <= j,
        forall|i: int| drop_spaces(s, lo, j) <= i < j ==> is_space(s[i]),
        lo < drop_spaces(s, lo, j) ==> !is_space(s[drop_spaces(s, lo, j) - 1]),
    decreases j - lo,
{
    if lo < j && is_space(s[j - 1]) {
        lemma_drop_spaces(s, lo, j - 1);
    }
}

/// Trimming cuts `s` down to the part between the bounds returned: only
/// white space is cut off on either side, and what is left neither starts
/// nor ends with white space.
pub proof fn law_trim_is_tight(s: Seq<char>) -> (bounds: (int, int))
    ensures
        0 <= bounds.0 <= bounds.1 <= s.len(),
        trim(s) == s.subrange(bounds.0, bounds.1),
        forall|i: int| 0 <= i < bounds.0 ==> is_space(s[i]),
        forall|i: int| bounds.1 <= i < s.len() ==> is_space(s[i]),
        trim(s).len() > 0 ==> !is_space(trim(s).first()) && !is_space(trim(s).last()),
{
    let a = skip_spaces(s, 0);
    let b = drop_spaces(s, a, s.len() as int);
    lemma_skip_spaces(s, 0);
    lemma_drop_spaces(s, a, s.len() as int);
    (a, b)
}

/// Where `after_last_dot` points: behind a dot or at the start, with no
/// dot from there to `j`.
proof fn lemma_after_last_dot(s: Seq<char>, j: int)
    requires
        0 <= j <= s.len(),
    ensures
        0 <= after_last_dot(s, j) <= j,
        after_last_dot(s, j) > 0 ==> s[after_last_dot(s, j) - 1] == '.',
        forall|i: int| after_last_dot(s, j) <= i < j ==> s[i] != '.',
    decreases j,
{
    if j > 0 && s[j - 1] != '.' {
        lemma_after_last_dot(s, j - 1);
    }
}

/// An extension holds no dot. A path with a dot is what stands before its
/// last dot, the dot and the extension; a path without one is its own
/// extension.
pub proof fn law_extension_follows_last_dot(path: Seq<char>)
    ensures
        forall|i: int| 0 <= i < extension_of(path).len() ==> extension_of(path)[i] != '.',
        path.contains('.') ==> path == path.take(path.len() - extension_of(path).len() - 1)
            + seq!['.'] + extension_of(path),
        !path.contains('.') ==> extension_of(path) == path,
{
    let n = path.len() as int;
    let k = after_last_dot(path, n);
    lemma_after_last_dot(path, n);
    if path.contains('.') {
        let i = choose|i: int| 0 <= i < path.len() && path[i] == '.';
        assert(k > 0);
        assert(path =~= path.take(k - 1) + seq!['.'] + extension_of(path));
    } else {
        if k > 0 {
            assert(path[k - 1] == '.');
            assert(path.contains('.'));
        }
        assert(extension_of(path) =~= path);
    }
}

/// The lines found from `start` hold no line feed.
proof fn lemma_lines_hold_no_feed(s: Seq<char>, start: int, i: int)
    requires
        0 <= start <= i <= s.len(),
        forall|j: int| start <= j < i ==> s[j] != '\n',
    ensures
        forall|k: int|
            0 <= k < lines_from(s, start, i).len() ==> holds_no_line_feed(
                #[trigger] lines_from(s, start, i)[k],
            ),
    decreases s.len() - i,
{
    let lines = lines_from(s, start, i);
    if i >= s.len() {
        if start < s.len() {
            assert(holds_no_line_feed(s.subrange(start, s.len() as int)));
            assert(lines[0] == s.subrange(start, s.len() as int));
        }
    } else if s[i] == '\n' {
        lemma_lines_hold_no_feed(s, i + 1, i + 1);
        assert(lines == seq![strip_cr(s.subrange(start, i))] + lines_from(s, i + 1, i + 1));
        let first = strip_cr(s.subrange(start, i));
        let rest = lines_from(s, i + 1, i + 1);
        assert(holds_no_line_feed(first));
        assert forall|k: int| 0 <= k < (seq![first] + rest).len() implies holds_no_line_feed(
            #[trigger] (seq![first] + rest)[k],
        ) by {
            if k > 0 {
                assert((seq![first] + rest)[k] == rest[k - 1]);
            }
        }
    } else {
        lemma_lines_hold_no_feed(s, start, i + 1);
        assert(lines == lines_from(s, start, i + 1));
    }
}

/// No line of a text holds a line feed.
pub proof fn law_lines_hold_no_line_feed(s: Seq<char>)
    ensures
        forall|k: int|
            0 <= k < split_lines(s).len() ==> holds_no_line_feed(#[trigger] split_lines(s)[k]),
{
    lemma_lines_hold_no_feed(s, 0, 0);
}

} // verus!
