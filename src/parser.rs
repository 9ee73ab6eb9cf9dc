//! Parsing of `KEY=VALUE` text into an [`EnvMap`].
//!
//! The text is split into lines at `'\n'`. Each line is trimmed; blank lines and
//! lines starting with `#` are skipped. A remaining line is split at its first
//! `=`; key and value are trimmed, a line with no `=` or an empty key is
//! dropped, and one pair of matching quotes around the value is removed. A later
//! line for a key replaces an earlier one.

use vstd::prelude::*;

use crate::env_map::EnvMap;

verus! {

/// Unicode `White_Space`: the characters that `str::trim` removes.
pub open spec fn is_space(c: char) -> bool {
    let n = c as u32;
    ||| 0x09 <= n <= 0x0D
    ||| n == 0x20
    ||| n == 0x85
    ||| n == 0xA0
    ||| n == 0x1680
    ||| 0x2000 <= n <= 0x200A
    ||| n == 0x2028
    ||| n == 0x2029
    ||| n == 0x202F
    ||| n == 0x205F
    ||| n == 0x3000
}

/// `s` without its leading white space.
pub open spec fn trim_start(s: Seq<char>) -> Seq<char>
    decreases s.len(),
{
    if s.len() > 0 && is_space(s[0]) {
        trim_start(s.drop_first())
    } else {
        s
    }
}

/// `s` without its trailing white space.
pub open spec fn trim_end(s: Seq<char>) -> Seq<char>
    decreases s.len(),
{
    if s.len() > 0 && is_space(s.last()) {
        trim_end(s.drop_last())
    } else {
        s
    }
}

/// `s` without leading and trailing white space.
pub open spec fn trim(s: Seq<char>) -> Seq<char> {
    trim_end(trim_start(s))
}

/// The index of the first `c` in `s`, if `s` holds one.
pub open spec fn find_char(s: Seq<char>, c: char) -> Option<int>
    decreases s.len(),
{
    if s.len() == 0 {
        None
    } else if s[0] == c {
        Some(0)
    } else {
        match find_char(s.drop_first(), c) {
            Some(i) => Some(i + 1),
            None => None,
        }
    }
}

/// The lines of `s`: the pieces between `'\n'` characters, in order.
pub open spec fn lines_of(s: Seq<char>) -> Seq<Seq<char>>
    decreases s.len(),
{
    match find_char(s, '\n') {
        None => seq![s],
        Some(i) => {
            proof {
                lemma_find_char(s, '\n');
            }
            seq![s.take(i)] + lines_of(s.skip(i + 1))
        },
    }
}

/// Whether `c` is a quote character.
pub open spec fn is_quote(c: char) -> bool {
    c == '"' || c == '\''
}

/// `v` without one enclosing pair of matching quotes, where it has such a pair.
pub open spec fn strip_quotes(v: Seq<char>) -> Seq<char> {
    if v.len() >= 2 && is_quote(v[0]) && v.last() == v[0] {
        v.subrange(1, v.len() - 1)
    } else {
        v
    }
}

/// The key and value that one line sets, or `None` for a blank, comment or malformed line.
pub open spec fn line_entry(line: Seq<char>) -> Option<(Seq<char>, Seq<char>)> {
    let t = trim(line);
    if t.len() == 0 || t[0] == '#' {
        None
    } else {
        match find_char(t, '=') {
            None => None,
            Some(i) => {
                let key = trim(t.take(i));
                if key.len() == 0 {
                    None
                } else {
                    Some((key, strip_quotes(trim(t.skip(i + 1)))))
                }
            },
        }
    }
}

/// `m` after one line.
pub open spec fn apply_line(m: Map<Seq<char>, Seq<char>>, line: Seq<char>) -> Map<
    Seq<char>,
    Seq<char>,
> {
    match line_entry(line) {
        Some((k, v)) => m.insert(k, v),
        None => m,
    }
}

/// `m` after each of `lines`, first to last.
pub open spec fn apply_lines(m: Map<Seq<char>, Seq<char>>, lines: Seq<Seq<char>>) -> Map<
    Seq<char>,
    Seq<char>,
>
    decreases lines.len(),
{
    if lines.len() == 0 {
        m
    } else {
        apply_lines(apply_line(m, lines[0]), lines.drop_first())
    }
}

/// The map that the text `s` denotes.
pub open spec fn parsed_env(s: Seq<char>) -> Map<Seq<char>, Seq<char>> {
    apply_lines(Map::empty(), lines_of(s))
}

/// `find_char` gives the first occurrence, and `None` only where there is none.
pub proof fn lemma_find_char(s: Seq<char>, c: char)
    ensures
        match find_char(s, c) {
            Some(i) => 0 <= i < s.len() && s[i] == c && forall|j: int| 0 <= j < i ==> s[j] != c,
            None => forall|j: int| 0 <= j < s.len() ==> s[j] != c,
        },
    decreases s.len(),
{
    if s.len() > 0 && s[0] != c {
        lemma_find_char(s.drop_first(), c);
        assert forall|j: int| 0 < j < s.len() implies s[j] == s.drop_first()[j - 1] by {}
    }
}

/// The first occurrence is unique: a first occurrence found by a scan is `find_char`'s.
proof fn lemma_find_char_at(s: Seq<char>, c: char, i: int)
    requires
        0 <= i <= s.len(),
        forall|j: int| 0 <= j < i ==> s[j] != c,
        i < s.len() ==> s[i] == c,
    ensures
        i < s.len() ==> find_char(s, c) == Some(i),
        i == s.len() ==> find_char(s, c) is None,
{
    lemma_find_char(s, c);
}

/// Splitting at a `'\n'` splits the lines.
pub proof fn lemma_lines_of_concat(a: Seq<char>, b: Seq<char>)
    ensures
        lines_of(a + seq!['\n'] + b) == lines_of(a) + lines_of(b),
    decreases a.len(),
{
    let s = a + seq!['\n'] + b;
    lemma_find_char(a, '\n');
    match find_char(a, '\n') {
        Some(i) => {
            lemma_find_char_at(s, '\n', i);
            assert(s.take(i) =~= a.take(i));
            assert(s.skip(i + 1) =~= a.skip(i + 1) + seq!['\n'] + b);
            lemma_lines_of_concat(a.skip(i + 1), b);
            assert(lines_of(a) == seq![a.take(i)] + lines_of(a.skip(i + 1)));
            assert(lines_of(s) == seq![s.take(i)] + lines_of(s.skip(i + 1)));
            assert(lines_of(s) =~= lines_of(a) + lines_of(b));
        },
        None => {
            lemma_find_char_at(s, '\n', a.len() as int);
            assert(s.take(a.len() as int) =~= a);
            assert(s.skip(a.len() as int + 1) =~= b);
            assert(lines_of(a) == seq![a]);
            assert(lines_of(s) =~= lines_of(a) + lines_of(b));
        },
    }
}

/// Folding over two runs of lines is folding over the first, then the second.
pub proof fn lemma_apply_lines_concat(
    m: Map<Seq<char>, Seq<char>>,
    x: Seq<Seq<char>>,
    y: Seq<Seq<char>>,
)
    ensures
        apply_lines(m, x + y) == apply_lines(apply_lines(m, x), y),
    decreases x.len(),
{
    if x.len() > 0 {
        assert((x + y).drop_first() =~= x.drop_first() + y);
        lemma_apply_lines_concat(apply_line(m, x[0]), x.drop_first(), y);
    } else {
        assert(x + y =~= y);
    }
}

/// Leading white space of `p` decides where `p + q` starts once `p` holds more.
proof fn lemma_trim_start_concat(p: Seq<char>, q: Seq<char>)
    requires
        trim_start(p).len() > 0,
    ensures
        trim_start(p + q) == trim_start(p) + q,
    decreases p.len(),
{
    if is_space(p[0]) {
        assert((p + q).drop_first() =~= p.drop_first() + q);
        lemma_trim_start_concat(p.drop_first(), q);
    }
}

/// Trailing white space of `p + q` comes from `q`, and from `p` only when `q` is all white space.
proof fn lemma_trim_end_concat(p: Seq<char>, q: Seq<char>)
    ensures
        trim_end(p + q) == (if trim_end(q).len() > 0 {
            p + trim_end(q)
        } else {
            trim_end(p)
        }),
    decreases q.len(),
{
    if q.len() == 0 {
        assert(p + q =~= p);
    } else if is_space(q.last()) {
        assert((p + q).drop_last() =~= p + q.drop_last());
        lemma_trim_end_concat(p, q.drop_last());
    }
}

proof fn lemma_trim_start_idempotent(s: Seq<char>)
    ensures
        trim_start(trim_start(s)) == trim_start(s),
    decreases s.len(),
{
    if s.len() > 0 && is_space(s[0]) {
        lemma_trim_start_idempotent(s.drop_first());
    }
}

proof fn lemma_trim_end_idempotent(s: Seq<char>)
    ensures
        trim_end(trim_end(s)) == trim_end(s),
    decreases s.len(),
{
    if s.len() > 0 && is_space(s.last()) {
        lemma_trim_end_idempotent(s.drop_last());
    }
}

/// What `trim_start` keeps is a suffix, and what it drops is white space.
proof fn lemma_trim_start_suffix(s: Seq<char>)
    ensures
        trim_start(s).len() <= s.len(),
        trim_start(s) == s.skip(s.len() - trim_start(s).len()),
        forall|j: int| 0 <= j < s.len() - trim_start(s).len() ==> is_space(s[j]),
        trim_start(s).len() > 0 ==> !is_space(trim_start(s)[0]),
    decreases s.len(),
{
    if s.len() > 0 && is_space(s[0]) {
        lemma_trim_start_suffix(s.drop_first());
        assert(s.drop_first().skip(s.len() - 1 - trim_start(s).len()) =~= s.skip(
            s.len() - trim_start(s).len(),
        ));
        assert forall|j: int| 0 < j < s.len() - trim_start(s).len() implies is_space(s[j]) by {
            assert(s[j] == s.drop_first()[j - 1]);
        }
    } else {
        assert(s.skip(0) =~= s);
    }
}

/// What `trim_end` keeps is a prefix, and what it drops is white space.
proof fn lemma_trim_end_prefix(s: Seq<char>)
    ensures
        trim_end(s).len() <= s.len(),
        trim_end(s) == s.take(trim_end(s).len() as int),
        forall|j: int| trim_end(s).len() <= j < s.len() ==> is_space(s[j]),
    decreases s.len(),
{
    if s.len() > 0 && is_space(s.last()) {
        lemma_trim_end_prefix(s.drop_last());
        assert(s.drop_last().take(trim_end(s).len() as int) =~= s.take(trim_end(s).len() as int));
        assert forall|j: int| trim_end(s).len() <= j < s.len() implies is_space(s[j]) by {
            if j < s.len() - 1 {
                assert(s[j] == s.drop_last()[j]);
            }
        }
    } else {
        assert(s.take(s.len() as int) =~= s);
    }
}

/// Trimming leaves nothing exactly when every character is white space.
proof fn lemma_trim_empty(s: Seq<char>)
    ensures
        trim(s).len() == 0 <==> forall|j: int| 0 <= j < s.len() ==> is_space(s[j]),
    decreases s.len(),
{
    lemma_trim_start_suffix(s);
    lemma_trim_end_prefix(trim_start(s));
    let k = s.len() - trim_start(s).len();
    if trim(s).len() == 0 {
        assert forall|j: int| 0 <= j < s.len() implies is_space(s[j]) by {
            if j >= k {
                assert(s[j] == trim_start(s)[j - k]);
            }
        }
    }
    if forall|j: int| 0 <= j < s.len() ==> is_space(s[j]) {
        if trim_start(s).len() > 0 {
            assert(trim_start(s)[0] == s[k]);
        }
    }
}

/// Trimming the two ends may be done in either order.
proof fn lemma_trim_commutes(s: Seq<char>)
    ensures
        trim_start(trim_end(s)) == trim_end(trim_start(s)),
    decreases s.len(),
{
    if s.len() > 0 {
        let head = seq![s[0]];
        let s1 = s.drop_first();
        assert(s =~= head + s1);
        lemma_trim_end_concat(head, s1);
        if is_space(s[0]) {
            lemma_trim_commutes(s1);
            assert(trim_end(head) == trim_end(head.drop_last()));
            assert((head + trim_end(s1)).drop_first() =~= trim_end(s1));
        } else {
            assert(trim_end(head) == head);
        }
    }
}

/// Trimming twice is trimming once, whichever end went first.
proof fn lemma_trim_of_trim_end(s: Seq<char>)
    ensures
        trim(trim_end(s)) == trim(s),
{
    lemma_trim_commutes(s);
    lemma_trim_end_idempotent(trim_start(s));
}

/// A text with no line break is one line.
proof fn lemma_single_line(line: Seq<char>)
    requires
        !line.contains('\n'),
    ensures
        parsed_env(line) == apply_line(Map::empty(), line),
{
    lemma_find_char(line, '\n');
    if find_char(line, '\n') is Some {
        let i = find_char(line, '\n')->0;
        assert(line[i] == '\n');
    }
    assert(lines_of(line) == seq![line]);
    assert(seq![line].drop_first() =~= Seq::<Seq<char>>::empty());
    assert(apply_lines(Map::empty(), seq![line]) == apply_lines(
        apply_line(Map::empty(), line),
        Seq::<Seq<char>>::empty(),
    ));
}

/// A `KEY=VALUE` line sets its trimmed key to its trimmed value, less one pair of
/// matching quotes; any `=` after the first belongs to the value.
pub proof fn lemma_key_value_line(key: Seq<char>, value: Seq<char>)
    requires
        trim(key).len() > 0,
        trim(key)[0] != '#',
        !key.contains('='),
        !key.contains('\n'),
        !value.contains('\n'),
    ensures
        parsed_env(key + seq!['='] + value) == map![trim(key) => strip_quotes(trim(value))],
{
    let line = key + seq!['='] + value;
    let ks = trim_start(key);
    assert(!line.contains('\n')) by {
        if line.contains('\n') {
            let i = choose|i: int| 0 <= i < line.len() && line[i] == '\n';
            if i < key.len() {
                assert(key[i] == '\n');
            } else if i > key.len() {
                assert(value[i - key.len() - 1] == '\n');
            }
        }
    }
    lemma_single_line(line);
    lemma_trim_start_suffix(key);
    assert(ks.len() > 0);
    assert(line == key + (seq!['='] + value));
    lemma_trim_start_concat(key, seq!['='] + value);
    assert(trim_start(line) == (ks + seq!['=']) + value);
    lemma_trim_end_concat(ks + seq!['='], value);
    assert(trim_end(ks + seq!['=']) == ks + seq!['=']);
    let t = trim(line);
    assert(t =~= ks + seq!['='] + trim_end(value));
    assert(t[0] == ks[0]);
    assert(forall|j: int| 0 <= j < ks.len() ==> ks[j] == key[key.len() - ks.len() + j]);
    assert(forall|j: int| 0 <= j < ks.len() ==> t[j] != '=');
    lemma_find_char_at(t, '=', ks.len() as int);
    assert(t.take(ks.len() as int) =~= ks);
    assert(t.skip(ks.len() as int + 1) =~= trim_end(value));
    lemma_trim_start_idempotent(key);
    lemma_trim_of_trim_end(value);
    lemma_trim_end_prefix(ks);
    assert(trim(key)[0] == ks[0]);
    assert(trim(t.take(ks.len() as int)) == trim(key));
    assert(trim(t.skip(ks.len() as int + 1)) == trim(value));
    assert(line_entry(line) == Some((trim(key), strip_quotes(trim(value)))));
    assert(parsed_env(line) =~= map![trim(key) => strip_quotes(trim(value))]);
}

/// A value enclosed in one pair of matching quotes loses that pair and nothing
/// more: quotes, `=` and white space inside it stay.
pub proof fn lemma_quoted_value_line(key: Seq<char>, q: char, inner: Seq<char>)
    requires
        trim(key).len() > 0,
        trim(key)[0] != '#',
        !key.contains('='),
        !key.contains('\n'),
        !inner.contains('\n'),
        is_quote(q),
    ensures
        parsed_env(key + seq!['='] + (seq![q] + inner + seq![q])) == map![trim(key) => inner],
{
    let v = seq![q] + inner + seq![q];
    assert(!v.contains('\n')) by {
        if v.contains('\n') {
            let i = choose|i: int| 0 <= i < v.len() && v[i] == '\n';
            assert(inner[i - 1] == '\n');
        }
    }
    lemma_key_value_line(key, v);
    assert(trim_start(v) == v);
    assert(trim_end(v) == v);
    assert(v.subrange(1, v.len() - 1) =~= inner);
}

/// A line that sets nothing can be taken out, whether it stands between other
/// lines, first, or last.
proof fn lemma_idle_line(a: Seq<char>, line: Seq<char>, b: Seq<char>)
    requires
        line_entry(line) is None,
        !line.contains('\n'),
    ensures
        parsed_env(a + seq!['\n'] + line + seq!['\n'] + b) == parsed_env(a + seq!['\n'] + b),
        parsed_env(line + seq!['\n'] + b) == parsed_env(b),
        parsed_env(a + seq!['\n'] + line) == parsed_env(a),
{
    let ab = a + seq!['\n'] + b;
    let whole = a + seq!['\n'] + line + seq!['\n'] + b;
    assert(whole == a + seq!['\n'] + (line + seq!['\n'] + b));
    lemma_lines_of_concat(a, line + seq!['\n'] + b);
    lemma_lines_of_concat(line, b);
    lemma_lines_of_concat(a, b);
    lemma_single_line(line);
    lemma_find_char(line, '\n');
    if find_char(line, '\n') is Some {
        let i = find_char(line, '\n')->0;
        assert(line[i] == '\n');
    }
    assert(lines_of(line) == seq![line]);
    let m = apply_lines(Map::empty(), lines_of(a));
    lemma_apply_lines_concat(Map::empty(), lines_of(a), seq![line] + lines_of(b));
    lemma_apply_lines_concat(Map::empty(), lines_of(a), lines_of(b));
    assert((seq![line] + lines_of(b)).drop_first() =~= lines_of(b));
    lemma_lines_of_concat(a, line);
    lemma_apply_lines_concat(Map::empty(), lines_of(a), seq![line]);
    assert(seq![line].drop_first() =~= Seq::<Seq<char>>::empty());
    assert(apply_lines(m, seq![line]) == apply_lines(m, Seq::<Seq<char>>::empty()));
}

/// Blank lines and lines whose first non-blank character is `#` add nothing,
/// wherever they stand.
pub proof fn lemma_blank_and_comment_lines_ignored(a: Seq<char>, line: Seq<char>, b: Seq<char>)
    requires
        !line.contains('\n'),
        trim(line).len() == 0 || trim(line)[0] == '#',
    ensures
        parsed_env(a + seq!['\n'] + line + seq!['\n'] + b) == parsed_env(a + seq!['\n'] + b),
        parsed_env(line + seq!['\n'] + b) == parsed_env(b),
        parsed_env(a + seq!['\n'] + line) == parsed_env(a),
{
    lemma_idle_line(a, line, b);
}

/// A line with no `=`, or with nothing but white space before its first `=`, is
/// dropped without error: the result is as if it were absent, wherever it stands.
pub proof fn lemma_malformed_lines_ignored(a: Seq<char>, line: Seq<char>, b: Seq<char>)
    requires
        !line.contains('\n'),
        !line.contains('=') || trim(line.take(find_char(line, '=')->0)).len() == 0,
    ensures
        parsed_env(a + seq!['\n'] + line + seq!['\n'] + b) == parsed_env(a + seq!['\n'] + b),
        parsed_env(line + seq!['\n'] + b) == parsed_env(b),
        parsed_env(a + seq!['\n'] + line) == parsed_env(a),
{
    let ts = trim_start(line);
    let t = trim(line);
    lemma_trim_start_suffix(line);
    lemma_trim_end_prefix(ts);
    let lead = line.len() - ts.len();
    assert(t =~= line.subrange(lead, lead + t.len()));
    lemma_find_char(t, '=');
    if t.len() > 0 && t[0] != '#' {
        if !line.contains('=') {
            if find_char(t, '=') is Some {
                let i = find_char(t, '=')->0;
                assert(line[lead + i] == '=');
            }
        } else {
            lemma_find_char(line, '=');
            let j = find_char(line, '=')->0;
            lemma_trim_empty(line.take(j));
            assert(j >= lead) by {
                if j < lead {
                    assert(line.take(j).len() == j);
                    assert(is_space(line[j]));
                }
            }
            assert(j < lead + t.len()) by {
                if j >= lead + t.len() {
                    assert(ts[j - lead] == line[j]);
                }
            }
            lemma_find_char_at(t, '=', j - lead);
            assert(t.take(j - lead) =~= line.take(j).skip(lead));
            lemma_trim_empty(t.take(j - lead));
        }
    }
    lemma_idle_line(a, line, b);
}

/// Parsing depends on the text alone: two parses of one text give one map.
pub proof fn lemma_parse_repeatable(contents: Seq<char>, first: EnvMap, second: EnvMap)
    requires
        first@ == parsed_env(contents),
        second@ == parsed_env(contents),
    ensures
        first@ == second@,
{
}

/// The characters of `s`, in order.
fn chars_of(s: &str) -> (r: Vec<char>)
    ensures
        r@ == s@,
{
    let mut r: Vec<char> = Vec::new();
    for c in it: s.chars()
        invariant
            r@ == it.seq().take(it.index() as int),
    {
        r.push(c);
    }
    r
}

/// Whether `c` is white space in the sense of [`is_space`].
fn is_space_char(c: char) -> (r: bool)
    ensures
        r == is_space(c),
{
    let n = c as u32;
    (0x09 <= n && n <= 0x0D) || n == 0x20 || n == 0x85 || n == 0xA0 || n == 0x1680 || (0x2000 <= n
        && n <= 0x200A) || n == 0x2028 || n == 0x2029 || n == 0x202F || n == 0x205F || n == 0x3000
}

/// The bounds of `chars[lo..hi]` trimmed of white space.
fn trim_bounds(chars: &Vec<char>, lo: usize, hi: usize) -> (r: (usize, usize))
    requires
        lo <= hi <= chars.len(),
    ensures
        lo <= r.0 <= r.1 <= hi,
        chars@.subrange(r.0 as int, r.1 as int) == trim(chars@.subrange(lo as int, hi as int)),
{
    let ghost whole = chars@.subrange(lo as int, hi as int);
    let mut a = lo;
    while a < hi && is_space_char(chars[a])
        invariant
            lo <= a <= hi <= chars.len(),
            trim_start(whole) == trim_start(chars@.subrange(a as int, hi as int)),
        decreases hi - a,
    {
        assert(chars@.subrange(a as int, hi as int).drop_first() =~= chars@.subrange(
            a + 1,
            hi as int,
        ));
        a = a + 1;
    }
    let mut b = hi;
    while a < b && is_space_char(chars[b - 1])
        invariant
            lo <= a <= b <= hi <= chars.len(),
            trim_end(chars@.subrange(a as int, hi as int)) == trim_end(
                chars@.subrange(a as int, b as int),
            ),
        decreases b - a,
    {
        assert(chars@.subrange(a as int, b as int).drop_last() =~= chars@.subrange(
            a as int,
            b - 1,
        ));
        b = b - 1;
    }
    (a, b)
}

/// The index of the first `c` in `chars[lo..hi]`, or `hi` where there is none.
fn find_from(chars: &Vec<char>, lo: usize, hi: usize, c: char) -> (r: usize)
    requires
        lo <= hi <= chars.len(),
    ensures
        lo <= r <= hi,
        r < hi ==> find_char(chars@.subrange(lo as int, hi as int), c) == Some(r - lo),
        r == hi ==> find_char(chars@.subrange(lo as int, hi as int), c) is None,
{
    let ghost whole = chars@.subrange(lo as int, hi as int);
    let mut i = lo;
    while i < hi && chars[i] != c
        invariant
            lo <= i <= hi <= chars.len(),
            whole == chars@.subrange(lo as int, hi as int),
            forall|j: int| 0 <= j < i - lo ==> whole[j] != c,
        decreases hi - i,
    {
        i = i + 1;
    }
    proof {
        lemma_find_char_at(whole, c, i - lo);
    }
    i
}

/// Applies the line `chars[lo..hi]` of `contents` to `map`.
fn parse_line(contents: &str, chars: &Vec<char>, lo: usize, hi: usize, map: &mut EnvMap)
    requires
        chars@ == contents@,
        lo <= hi <= chars.len(),
        old(map).wf(),
    ensures
        final(map).wf(),
        final(map)@ == apply_line(old(map)@, chars@.subrange(lo as int, hi as int)),
{
    let ghost line = chars@.subrange(lo as int, hi as int);
    let (a, b) = trim_bounds(chars, lo, hi);
    let ghost t = chars@.subrange(a as int, b as int);
    if a == b || chars[a] == '#' {
        return ;
    }
    let eq = find_from(chars, a, b, '=');
    if eq == b {
        return ;
    }
    assert(t.take(eq - a) =~= chars@.subrange(a as int, eq as int));
    assert(t.skip(eq - a + 1) =~= chars@.subrange(eq + 1, b as int));
    let (ka, kb) = trim_bounds(chars, a, eq);
    if ka == kb {
        return ;
    }
    let (va, vb) = trim_bounds(chars, eq + 1, b);
    let ghost v = chars@.subrange(va as int, vb as int);
    let quoted = vb - va >= 2 && (chars[va] == '"' || chars[va] == '\'') && chars[vb - 1]
        == chars[va];
    let (sa, sb) = if quoted {
        assert(v.subrange(1, v.len() - 1) =~= chars@.subrange(va + 1, vb - 1));
        (va + 1, vb - 1)
    } else {
        (va, vb)
    };
    assert(chars@.subrange(sa as int, sb as int) == strip_quotes(v));
    let key = contents.substring_char(ka, kb).to_owned();
    let value = contents.substring_char(sa, sb).to_owned();
    map.insert(key, value);
}

/// Parses `KEY=VALUE` text into a map. Never fails: lines that set nothing are skipped.
pub fn parse_env_contents(contents: &str) -> (r: EnvMap)
    ensures
        r.wf(),
        r@ == parsed_env(contents@),
{
    let chars = chars_of(contents);
    let n = chars.len();
    let mut map = EnvMap::new();
    let mut pos: usize = 0;
    let mut more = true;
    assert(chars@.skip(0) =~= chars@);
    while more
        invariant
            chars@ == contents@,
            n == chars.len(),
            pos <= n,
            map.wf(),
            more ==> apply_lines(map@, lines_of(chars@.skip(pos as int))) == parsed_env(
                contents@,
            ),
            !more ==> map@ == parsed_env(contents@),
        decreases n - pos + if more {
            1int
        } else {
            0int
        },
    {
        let end = find_from(&chars, pos, n, '\n');
        let ghost rest = chars@.skip(pos as int);
        let ghost line = chars@.subrange(pos as int, end as int);
        let ghost m0 = map@;
        assert(rest =~= chars@.subrange(pos as int, n as int));
        parse_line(contents, &chars, pos, end, &mut map);
        if end < n {
            proof {
                let tail = lines_of(chars@.skip(end + 1));
                assert(rest.take(end - pos) =~= line);
                assert(rest.skip(end - pos + 1) =~= chars@.skip(end + 1));
                assert(lines_of(rest) == seq![line] + tail);
                assert((seq![line] + tail).drop_first() =~= tail);
            }
            pos = end + 1;
        } else {
            proof {
                assert(rest =~= line);
                assert(lines_of(rest) == seq![line]);
                assert(seq![line].drop_first() =~= Seq::<Seq<char>>::empty());
                assert(apply_lines(m0, seq![line]) == apply_lines(
                    apply_line(m0, line),
                    Seq::<Seq<char>>::empty(),
                ));
            }
            more = false;
        }
    }
    map
}

} // verus!
