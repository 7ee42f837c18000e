//! Windows paths: the name that one ends with, and two of them as one.
//!
//! A path is a prefix (a drive, a share, a device), then components parted by
//! separators. Empty components and `.` count for nothing.
use crate::text::{copy_text, from_chars, same_text, texts, to_chars};
use vstd::prelude::*;

verus! {

pub open spec fn slash(c: char) -> bool {
    c == '\\' || c == '/'
}

/// `\` separates components everywhere; `/` does too, except in a path that
/// begins with `\\?\`, which is taken literally.
pub open spec fn separates(c: char, literal: bool) -> bool {
    c == '\\' || (c == '/' && !literal)
}

/// The path begins with `\\?\`.
pub open spec fn is_literal(p: Seq<char>) -> bool {
    p.len() >= 4 && p[0] == '\\' && p[1] == '\\' && p[2] == '?' && p[3] == '\\'
}

/// The path goes on from place 4 with `UNC\`.
pub open spec fn names_a_share(p: Seq<char>) -> bool {
    p.len() >= 8 && p[4] == 'U' && p[5] == 'N' && p[6] == 'C' && slash(p[7])
}

/// A letter and a colon stand at place `at`.
pub open spec fn drive_at(p: Seq<char>, at: int) -> bool {
    p.len() >= at + 2 && ('a' <= p[at] <= 'z' || 'A' <= p[at] <= 'Z') && p[at + 1] == ':'
}

/// The first separator from place `from` on, or the length where there is none.
pub open spec fn separator_from(p: Seq<char>, from: int, literal: bool) -> int
    decreases p.len() - from,
{
    if from >= p.len() {
        p.len() as int
    } else if separates(p[from], literal) {
        from
    } else {
        separator_from(p, from + 1, literal)
    }
}

/// Where the component after the one that ends at `end` ends in turn.
pub open spec fn following_end(p: Seq<char>, end: int, literal: bool) -> int {
    if end < p.len() {
        separator_from(p, end + 1, literal)
    } else {
        end
    }
}

/// How much of the path is its prefix: `C:`, `\\server\share`, `\\.\device`,
/// `\\?\C:`, `\\?\UNC\server\share` or `\\?\name`.
pub open spec fn prefix_len(p: Seq<char>) -> int {
    if p.len() >= 2 && slash(p[0]) && slash(p[1]) {
        if is_literal(p) {
            if names_a_share(p) {
                let server = separator_from(p, 8, true);
                let share = following_end(p, server, true);
                if share > server + 1 {
                    share
                } else {
                    server
                }
            } else if drive_at(p, 4) && (p.len() == 6 || slash(p[6])) {
                6
            } else {
                separator_from(p, 4, true)
            }
        } else if p.len() >= 4 && p[2] == '.' && slash(p[3]) {
            separator_from(p, 4, false)
        } else {
            let server = separator_from(p, 2, false);
            let share = following_end(p, server, false);
            if server > 2 && share > server + 1 {
                share
            } else {
                0
            }
        }
    } else if drive_at(p, 0) {
        2
    } else {
        0
    }
}

/// Where the components begin: after the prefix, and after the separator that
/// may follow it. Here `/` counts in a literal path too.
pub open spec fn body_start(p: Seq<char>) -> int {
    let end = prefix_len(p);
    if end < p.len() && slash(p[end]) {
        end + 1
    } else {
        end
    }
}

/// Where the component that ends at `hi` begins, no earlier than `lo`.
pub open spec fn component_start(p: Seq<char>, lo: int, hi: int, literal: bool) -> int
    decreases hi - lo,
{
    if hi <= lo {
        lo
    } else if separates(p[hi - 1], literal) {
        hi
    } else {
        component_start(p, lo, hi - 1, literal)
    }
}

/// The last component between `lo` and `hi` that is a name, as its two ends.
/// There is none where only empty components and `.` are left, or where `..`
/// comes last.
pub open spec fn last_name(p: Seq<char>, lo: int, hi: int, literal: bool) -> Option<(int, int)>
    decreases hi - lo,
{
    let start = component_start(p, lo, hi, literal);
    let dot = hi == start + 1 && p[start] == '.';
    let dots = hi == start + 2 && p[start] == '.' && p[start + 1] == '.';
    if hi <= lo {
        None
    } else if start >= hi || (dot && !literal) {
        if start <= lo || start > hi {
            None
        } else {
            last_name(p, lo, start - 1, literal)
        }
    } else if dot || dots {
        None
    } else {
        Some((start, hi))
    }
}

/// The last place from `from` up to `n` that holds a dot, if there is one.
pub open spec fn last_dot(p: Seq<char>, from: int, n: int) -> Option<int>
    decreases n - from,
{
    if n <= from {
        None
    } else if p[n - 1] == '.' {
        Some(n - 1)
    } else {
        last_dot(p, from, n - 1)
    }
}

/// The name that the path ends with, without its extension. A dot that leads
/// the name starts no extension.
pub open spec fn file_stem(p: Seq<char>) -> Option<Seq<char>> {
    match last_name(p, body_start(p), p.len() as int, is_literal(p)) {
        Some((start, end)) => match last_dot(p, start, end) {
            Some(dot) if dot > start => Some(p.subrange(start, dot)),
            _ => Some(p.subrange(start, end)),
        },
        None => None,
    }
}

fn is_slash(c: char) -> (res: bool)
    ensures
        res == slash(c),
{
    c == '\\' || c == '/'
}

fn is_separator(c: char, literal: bool) -> (res: bool)
    ensures
        res == separates(c, literal),
{
    c == '\\' || (c == '/' && !literal)
}

fn has_drive(p: &Vec<char>, at: usize) -> (res: bool)
    requires
        at <= 4,
    ensures
        res == drive_at(p@, at as int),
{
    p.len() >= at + 2 && (('a' <= p[at] && p[at] <= 'z') || ('A' <= p[at] && p[at] <= 'Z')) && p[at
        + 1] == ':'
}

fn find_separator(p: &Vec<char>, from: usize, literal: bool) -> (at: usize)
    requires
        from <= p@.len(),
    ensures
        at == separator_from(p@, from as int, literal),
        from <= at <= p@.len(),
{
    let mut i: usize = from;
    while i < p.len() && !is_separator(p[i], literal)
        invariant
            from <= i <= p@.len(),
            separator_from(p@, i as int, literal) == separator_from(p@, from as int, literal),
        decreases p@.len() - i,
    {
        i += 1;
    }
    i
}

fn find_following(p: &Vec<char>, end: usize, literal: bool) -> (at: usize)
    requires
        end <= p@.len(),
    ensures
        at == following_end(p@, end as int, literal),
        end <= at <= p@.len(),
{
    if end < p.len() {
        find_separator(p, end + 1, literal)
    } else {
        end
    }
}

fn measure_prefix(p: &Vec<char>) -> (n: usize)
    ensures
        n == prefix_len(p@),
        n <= p@.len(),
{
    let n: usize = p.len();
    if n >= 2 && is_slash(p[0]) && is_slash(p[1]) {
        if begins_literally(p) {
            if n >= 8 && p[4] == 'U' && p[5] == 'N' && p[6] == 'C' && is_slash(p[7]) {
                let server = find_separator(p, 8, true);
                let share = find_following(p, server, true);
                if share > server && share - server > 1 {
                    share
                } else {
                    server
                }
            } else if has_drive(p, 4) && (n == 6 || is_slash(p[6])) {
                6
            } else {
                find_separator(p, 4, true)
            }
        } else if n >= 4 && p[2] == '.' && is_slash(p[3]) {
            find_separator(p, 4, false)
        } else {
            let server = find_separator(p, 2, false);
            let share = find_following(p, server, false);
            if server > 2 && share > server && share - server > 1 {
                share
            } else {
                0
            }
        }
    } else if has_drive(p, 0) {
        2
    } else {
        0
    }
}

fn measure_start(p: &Vec<char>) -> (n: usize)
    ensures
        n == body_start(p@),
        n <= p@.len(),
{
    let end = measure_prefix(p);
    if end < p.len() && is_slash(p[end]) {
        end + 1
    } else {
        end
    }
}

fn begins_literally(p: &Vec<char>) -> (res: bool)
    ensures
        res == is_literal(p@),
{
    p.len() >= 4 && p[0] == '\\' && p[1] == '\\' && p[2] == '?' && p[3] == '\\'
}

fn find_start(p: &Vec<char>, lo: usize, hi: usize, literal: bool) -> (start: usize)
    requires
        lo <= hi <= p@.len(),
    ensures
        start == component_start(p@, lo as int, hi as int, literal),
        lo <= start <= hi,
{
    let mut n: usize = hi;
    while n > lo && !is_separator(p[n - 1], literal)
        invariant
            lo <= n <= hi <= p@.len(),
            component_start(p@, lo as int, n as int, literal) == component_start(
                p@,
                lo as int,
                hi as int,
                literal,
            ),
        decreases n,
    {
        n -= 1;
    }
    n
}

fn find_name(p: &Vec<char>, lo: usize, literal: bool) -> (res: Option<(usize, usize)>)
    requires
        lo <= p@.len(),
    ensures
        res is Some <==> last_name(p@, lo as int, p@.len() as int, literal) is Some,
        res matches Some((start, end)) ==> last_name(p@, lo as int, p@.len() as int, literal)
            == Some((start as int, end as int)) && lo <= start < end <= p@.len(),
{
    let mut hi: usize = p.len();
    while hi > lo
        invariant
            lo <= hi <= p@.len(),
            last_name(p@, lo as int, hi as int, literal) == last_name(
                p@,
                lo as int,
                p@.len() as int,
                literal,
            ),
        decreases hi,
    {
        let start = find_start(p, lo, hi, literal);
        let len: usize = hi - start;
        let dot = len == 1 && p[start] == '.';
        let dots = len == 2 && p[start] == '.' && p[start + 1] == '.';
        if len == 0 || (dot && !literal) {
            if start == lo {
                return None;
            }
            hi = start - 1;
        } else if dot || dots {
            return None;
        } else {
            return Some((start, hi));
        }
    }
    None
}

fn find_dot(p: &Vec<char>, from: usize, to: usize) -> (dot: Option<usize>)
    requires
        from <= to <= p@.len(),
    ensures
        dot is Some <==> last_dot(p@, from as int, to as int) is Some,
        dot matches Some(d) ==> last_dot(p@, from as int, to as int) == Some(d as int) && from <= d
            < to,
{
    let mut n: usize = to;
    while n > from
        invariant
            from <= n <= to <= p@.len(),
            last_dot(p@, from as int, n as int) == last_dot(p@, from as int, to as int),
        decreases n,
    {
        if p[n - 1] == '.' {
            return Some(n - 1);
        }
        n -= 1;
    }
    None
}

/// The name that a path ends with, without its extension.
pub fn stem_of(path: &str) -> (res: Option<String>)
    ensures
        res is Some <==> file_stem(path@) is Some,
        res matches Some(s) ==> file_stem(path@) == Some(s@),
{
    let p = to_chars(path);
    let literal = begins_literally(&p);
    let lo = measure_start(&p);
    match find_name(&p, lo, literal) {
        Some((start, end)) => match find_dot(&p, start, end) {
            Some(dot) => if dot > start {
                Some(from_chars(&p, start, dot))
            } else {
                Some(from_chars(&p, start, end))
            },
            None => Some(from_chars(&p, start, end)),
        },
        None => None,
    }
}

// ---- joining --------------------------------------------------------------------

/// What stands between the separators from place `from` on, without what is
/// empty.
pub open spec fn pieces(p: Seq<char>, from: int, literal: bool) -> Seq<Seq<char>>
    decreases p.len() + 1 - from,
    via pieces_decreases
{
    if from >= p.len() {
        Seq::empty()
    } else {
        let end = separator_from(p, from, literal);
        let rest = pieces(p, end + 1, literal);
        if end > from {
            seq![p.subrange(from, end)] + rest
        } else {
            rest
        }
    }
}

#[via_fn]
proof fn pieces_decreases(p: Seq<char>, from: int, literal: bool) {
    lemma_separator_ahead(p, from, literal);
}

proof fn lemma_separator_ahead(p: Seq<char>, from: int, literal: bool)
    ensures
        from <= p.len() ==> from <= separator_from(p, from, literal) <= p.len(),
    decreases p.len() - from,
{
    if from < p.len() && !separates(p[from], literal) {
        lemma_separator_ahead(p, from + 1, literal);
    }
}

/// The parts of a literal path after one more component: `.` stays where it is,
/// `..` takes back a name, anything else is a name of its own.
pub open spec fn stepped(parts: Seq<Seq<char>>, c: Seq<char>) -> Seq<Seq<char>> {
    if c == "."@ {
        parts
    } else if c == ".."@ {
        if parts.len() > 0 && parts.last() != "."@ && parts.last() != ".."@ {
            parts.drop_last()
        } else {
            parts
        }
    } else {
        parts.push(c)
    }
}

/// The parts after the first `n` of some components.
pub open spec fn walked(parts: Seq<Seq<char>>, comps: Seq<Seq<char>>, n: int) -> Seq<Seq<char>>
    decreases n,
{
    if n <= 0 {
        parts
    } else {
        stepped(walked(parts, comps, n - 1), comps[n - 1])
    }
}

/// The first `n` parts, each behind a separator.
pub open spec fn spelled(parts: Seq<Seq<char>>, n: int) -> Seq<char>
    decreases n,
{
    if n <= 0 {
        Seq::empty()
    } else {
        spelled(parts, n - 1) + "\\"@ + parts[n - 1]
    }
}

/// Nothing resolves `.` and `..` in a literal path later on, so they are
/// resolved when something is joined to it. A name that begins with a separator
/// starts again after the prefix.
pub open spec fn rebuilt(base: Seq<char>, name: Seq<char>) -> Seq<char> {
    let anew = slash(name[0]);
    let rooted = anew || body_start(base) > prefix_len(base);
    let start = if anew {
        Seq::empty()
    } else {
        pieces(base, body_start(base), true)
    };
    let comps = pieces(name, 0, false);
    let parts = walked(start, comps, comps.len() as int);
    base.take(prefix_len(base)) + if parts.len() == 0 && rooted {
        "\\"@
    } else {
        spelled(parts, parts.len() as int)
    }
}

/// `base` and `name` as one path. A name with a prefix of its own stands alone,
/// and one that begins with a separator keeps only the prefix of `base`. Else a
/// separator comes between them where `base` does not end in one; a bare drive
/// takes none, and neither does nothing.
pub open spec fn joined(base: Seq<char>, name: Seq<char>) -> Seq<char> {
    if prefix_len(name) > 0 {
        name
    } else if is_literal(base) && name.len() > 0 {
        rebuilt(base, name)
    } else if name.len() > 0 && slash(name[0]) {
        base.take(prefix_len(base)) + name
    } else if base.len() == 0 || slash(base.last()) || (base.len() == 2 && drive_at(base, 0)) {
        base + name
    } else {
        base + "\\"@ + name
    }
}

fn take_pieces(p: &Vec<char>, from: usize, literal: bool) -> (out: Vec<String>)
    requires
        from <= p@.len(),
    ensures
        texts(out@) == pieces(p@, from as int, literal),
{
    let mut out: Vec<String> = Vec::new();
    let mut i: usize = from;
    assert(texts(out@) + pieces(p@, i as int, literal) =~= pieces(p@, from as int, literal));
    while i < p.len()
        invariant
            from <= i <= p@.len(),
            texts(out@) + pieces(p@, i as int, literal) == pieces(p@, from as int, literal),
        decreases p@.len() - i,
    {
        let ghost before = texts(out@);
        let end = find_separator(p, i, literal);
        let ghost rest = pieces(p@, end + 1, literal);
        if end > i {
            out.push(from_chars(p, i, end));
            assert(texts(out@) =~= before.push(p@.subrange(i as int, end as int)));
            assert(texts(out@) + rest =~= before + pieces(p@, i as int, literal));
        }
        if end == p.len() {
            assert(rest =~= Seq::empty());
            assert(pieces(p@, end as int, literal) =~= Seq::empty());
            i = end;
        } else {
            i = end + 1;
        }
    }
    assert(texts(out@) =~= pieces(p@, from as int, literal));
    out
}

fn step(parts: &mut Vec<String>, c: &str)
    ensures
        texts(final(parts)@) == stepped(texts(old(parts)@), c@),
{
    let n: usize = parts.len();
    if same_text(c, ".") {
        return;
    }
    if same_text(c, "..") {
        if n > 0 && !same_text(parts[n - 1].as_str(), ".") && !same_text(
            parts[n - 1].as_str(),
            "..",
        ) {
            let _ = parts.pop();
            assert(texts(parts@) =~= texts(old(parts)@).drop_last());
        }
        return;
    }
    parts.push(copy_text(c));
    assert(texts(parts@) =~= texts(old(parts)@).push(c@));
}

fn rebuild(base: &Vec<char>, name: &Vec<char>) -> (out: String)
    requires
        name@.len() > 0,
    ensures
        out@ == rebuilt(base@, name@),
{
    let cut = measure_prefix(base);
    let body = measure_start(base);
    let anew = is_slash(name[0]);
    let mut parts: Vec<String> = if anew {
        Vec::new()
    } else {
        take_pieces(base, body, true)
    };
    let comps = take_pieces(name, 0, false);
    let ghost start = texts(parts@);
    assert(anew ==> start =~= Seq::empty());
    let mut i: usize = 0;
    while i < comps.len()
        invariant
            i <= comps@.len(),
            texts(parts@) == walked(start, texts(comps@), i as int),
        decreases comps@.len() - i,
    {
        step(&mut parts, comps[i].as_str());
        i += 1;
    }
    let mut out = from_chars(base, 0, cut);
    assert(out@ =~= base@.take(cut as int));
    if parts.len() == 0 && (anew || body > cut) {
        out.push_str("\\");
        return out;
    }
    let mut k: usize = 0;
    assert(out@ =~= base@.take(cut as int) + spelled(texts(parts@), 0));
    while k < parts.len()
        invariant
            k <= parts@.len(),
            out@ == base@.take(cut as int) + spelled(texts(parts@), k as int),
        decreases parts@.len() - k,
    {
        out.push_str("\\");
        out.push_str(parts[k].as_str());
        k += 1;
        assert(out@ =~= base@.take(cut as int) + spelled(texts(parts@), k as int));
    }
    out
}

/// A name under a folder.
pub fn join(base: &str, name: &str) -> (out: String)
    ensures
        out@ == joined(base@, name@),
{
    let p = to_chars(base);
    let q = to_chars(name);
    let n: usize = p.len();
    if measure_prefix(&q) > 0 {
        return copy_text(name);
    }
    if begins_literally(&p) && q.len() > 0 {
        return rebuild(&p, &q);
    }
    if q.len() > 0 && is_slash(q[0]) {
        let cut = measure_prefix(&p);
        let mut out = from_chars(&p, 0, cut);
        assert(out@ =~= base@.take(cut as int));
        out.push_str(name);
        return out;
    }
    let mut out = copy_text(base);
    if !(n == 0 || is_slash(p[n - 1]) || (n == 2 && has_drive(&p, 0))) {
        out.push_str("\\");
    }
    out.push_str(name);
    out
}

// ---- laws -----------------------------------------------------------------------

/// A name that can stand in a path: not empty, and without separators.
pub open spec fn plain_name(s: Seq<char>) -> bool {
    s.len() > 0 && forall|i: int| 0 <= i < s.len() ==> (#[trigger] s[i]) != '\\' && s[i] != '/'
}

proof fn lemma_component_is(p: Seq<char>, lo: int, at: int, hi: int, literal: bool)
    requires
        0 <= lo <= at <= hi <= p.len(),
        forall|k: int| at <= k < hi ==> (#[trigger] p[k]) != '\\' && p[k] != '/',
        at > lo ==> p[at - 1] == '\\',
    ensures
        component_start(p, lo, hi, literal) == at,
    decreases hi - at,
{
    if hi > at {
        assert(p[hi - 1] != '\\' && p[hi - 1] != '/');
        lemma_component_is(p, lo, at, hi - 1, literal);
    }
}

pub(crate) proof fn lemma_dot_is_last(p: Seq<char>, from: int, n: int, at: int)
    requires
        0 <= from <= at < n <= p.len(),
        p[at] == '.',
        forall|k: int| at < k < n ==> (#[trigger] p[k]) != '.',
    ensures
        last_dot(p, from, n) == Some(at),
    decreases n - at,
{
    if n - 1 > at {
        assert(p[n - 1] != '.');
        lemma_dot_is_last(p, from, n - 1, at);
    }
}

pub(crate) proof fn lemma_dotless(p: Seq<char>, from: int, n: int)
    requires
        0 <= from <= n <= p.len(),
        forall|k: int| from <= k < n ==> (#[trigger] p[k]) != '.',
    ensures
        last_dot(p, from, n) is None,
    decreases n - from,
{
    if n > from {
        assert(p[n - 1] != '.');
        lemma_dotless(p, from, n - 1);
    }
}

/// The stem of a file is its name without directory and extension: the directory
/// ends at the last separator, and the extension begins at the last dot.
#[verifier::rlimit(40)]
pub proof fn law_the_stem_is_the_name(dir: Seq<char>, name: Seq<char>, ext: Seq<char>)
    requires
        dir.len() == 0 || (dir[0] != '\\' && dir[0] != '/'),
        plain_name(name),
        plain_name(ext),
        !ext.contains('.'),
    ensures
        file_stem(dir + seq!['\\'] + name + seq!['.'] + ext) == Some(name),
        file_stem(dir + seq!['\\'] + name + seq!['.'] + ext + seq!['\\']) == Some(name),
        !name.contains('.') ==> file_stem(dir + seq!['\\'] + name) == Some(name),
        !name.contains('.') ==> file_stem(dir + seq!['\\', '.'] + name) == Some(seq!['.'] + name),
{
    let d = dir.len() as int;
    let start = d + 1;
    let dot = start + name.len();
    let end = dot + 1 + ext.len();
    let p = dir + seq!['\\'] + name + seq!['.'] + ext;
    assert forall|k: int| start <= k < end implies (#[trigger] p[k]) != '\\' && p[k] != '/' by {
        if k < dot {
            assert(p[k] == name[k - start]);
        } else if k > dot {
            assert(p[k] == ext[k - dot - 1]);
        }
    }
    assert forall|k: int| dot < k < end implies (#[trigger] p[k]) != '.' by {
        assert(p[k] == ext[k - dot - 1]);
        assert(ext.contains(ext[k - dot - 1]));
    }
    assert(p[d] == '\\' && p[dot] == '.');
    assert(dir.len() > 0 ==> p[0] == dir[0]);
    lemma_body_starts_early(p, d);
    lemma_component_is(p, body_start(p), start, end, false);
    lemma_dot_is_last(p, start, end, dot);
    assert(p.subrange(start, dot) =~= name);
    let q = p + seq!['\\'];
    assert(q[d] == '\\');
    lemma_body_starts_early(q, d);
    lemma_component_is(q, body_start(q), end + 1, end + 1, false);
    lemma_component_is(q, body_start(q), start, end, false);
    lemma_dot_is_last(q, start, end, dot);
    assert(q.subrange(start, dot) =~= name);
    reveal_with_fuel(last_name, 2);
    if !name.contains('.') {
        assert forall|k: int| 0 <= k < name.len() implies (#[trigger] name[k]) != '.' by {
            assert(name.contains(name[k]));
        }
        let a = dir + seq!['\\'] + name;
        assert(a[d] == '\\');
        lemma_body_starts_early(a, d);
        lemma_component_is(a, body_start(a), start, a.len() as int, false);
        lemma_dotless(a, start, a.len() as int);
        assert(a[start] == name[0]);
        assert(a.subrange(start, a.len() as int) =~= name);
        let b = dir + seq!['\\', '.'] + name;
        assert(b[d] == '\\' && b[d + 1] == '.' && b[d + 2] == name[0]);
        lemma_body_starts_early(b, d);
        assert forall|k: int| start <= k < b.len() implies (#[trigger] b[k]) != '\\' && b[k]
            != '/' by {
            if k > start {
                assert(b[k] == name[k - start - 1]);
            }
        }
        lemma_component_is(b, body_start(b), start, b.len() as int, false);
        lemma_dot_is_last(b, start, b.len() as int, start);
        assert(b.subrange(start, b.len() as int) =~= seq!['.'] + name);
    }
}

/// The prefix of a path that does not begin with two separators ends before the
/// separator that is known.
proof fn lemma_body_starts_early(p: Seq<char>, d: int)
    requires
        0 <= d < p.len() - 1,
        p[d] == '\\',
        d > 0 ==> p[0] != '\\' && p[0] != '/',
        d == 0 ==> p[1] != '\\' && p[1] != '/',
    ensures
        0 <= body_start(p) <= d + 1,
        !is_literal(p),
{
}

/// Joining puts one separator between directory and name, whether or not the
/// directory brings one; with a drive alone, or with nothing, it puts none. The
/// file that comes out has the stem of the name.
pub proof fn law_joining_separates_once(dir: Seq<char>, name: Seq<char>, letter: char)
    requires
        dir.len() > 0,
        dir[0] != '\\' && dir[0] != '/',
        dir.last() != '\\' && dir.last() != '/',
        plain_name(name),
        !name.contains(':'),
        'a' <= letter <= 'z' || 'A' <= letter <= 'Z',
    ensures
        dir.len() != 2 || dir[1] != ':' ==> joined(dir, name) == dir + seq!['\\'] + name,
        joined(dir + seq!['\\'], name) == dir + seq!['\\'] + name,
        joined(dir + seq!['/'], name) == dir + seq!['/'] + name,
        joined(seq![letter, ':'], name) == seq![letter, ':'] + name,
        joined(Seq::empty(), name) == name,
{
    reveal_strlit("\\");
    assert("\\"@ =~= seq!['\\']);
    if name.len() >= 2 {
        assert(name.contains(name[1]));
    }
    assert(Seq::<char>::empty() + name =~= name);
    assert(dir + seq!['\\'] + name =~= (dir + seq!['\\']) + name);
    assert((dir + seq!['\\']).last() == '\\');
    assert((dir + seq!['/']).last() == '/');
    assert((dir + seq!['\\'])[0] == dir[0]);
    assert((dir + seq!['/'])[0] == dir[0]);
}

/// A name with a drive of its own stands alone, and one that begins with a
/// separator starts again at the root of the drive.
pub proof fn law_absolute_names_start_again(
    base: Seq<char>,
    letter: char,
    other: char,
    rest: Seq<char>,
    name: Seq<char>,
)
    requires
        'a' <= letter <= 'z' || 'A' <= letter <= 'Z',
        'a' <= other <= 'z' || 'A' <= other <= 'Z',
        plain_name(name),
    ensures
        joined(base, seq![other, ':'] + rest) == seq![other, ':'] + rest,
        joined(seq![letter, ':'] + rest, seq!['\\'] + name) == seq![letter, ':', '\\'] + name,
{
    let q = seq![other, ':'] + rest;
    assert(q[0] == other && q[1] == ':');
    let b = seq![letter, ':'] + rest;
    assert(b[0] == letter && b[1] == ':');
    let n = seq!['\\'] + name;
    assert(n[0] == '\\' && n[1] == name[0]);
    assert(b.take(2) =~= seq![letter, ':']);
    assert(b.take(2) + n =~= seq![letter, ':', '\\'] + name);
}

proof fn lemma_separator_is(p: Seq<char>, from: int, at: int, literal: bool)
    requires
        0 <= from <= at <= p.len(),
        forall|k: int| from <= k < at ==> (#[trigger] p[k]) != '\\' && p[k] != '/',
        at < p.len() ==> p[at] == '\\',
    ensures
        separator_from(p, from, literal) == at,
    decreases at - from,
{
    if from < at {
        lemma_separator_is(p, from + 1, at, literal);
    }
}

/// The server and the share of a network path are no names: the stem is that of
/// what stands behind them, and there is none where nothing does.
pub proof fn law_shares_are_no_names(server: Seq<char>, share: Seq<char>, name: Seq<char>)
    requires
        plain_name(server),
        plain_name(share),
        plain_name(name),
        server != seq!['?'],
        server != seq!['.'],
        !name.contains('.'),
    ensures
        file_stem(seq!['\\', '\\'] + server + seq!['\\'] + share + seq!['\\'] + name) == Some(name),
        file_stem(seq!['\\', '\\'] + server + seq!['\\'] + share) is None,
{
    let s = 2 + server.len() as int;
    let e = s + 1 + share.len();
    let q = seq!['\\', '\\'] + server + seq!['\\'] + share;
    let p = q + seq!['\\'] + name;
    assert forall|k: int| 0 <= k < q.len() implies (2 <= k < s || s < k < e ==> (#[trigger] q[k])
        != '\\' && q[k] != '/') && q[k] == p[k] by {
        if 2 <= k < s {
            assert(q[k] == server[k - 2]);
        } else if s < k < e {
            assert(q[k] == share[k - s - 1]);
        }
    }
    assert(q[0] == '\\' && q[1] == '\\' && q[s] == '\\' && p[e] == '\\');
    assert(server.len() == 1 ==> server =~= seq![server[0]]);
    assert(q[2] == server[0]);
    if server.len() > 1 {
        assert(q[3] == server[1]);
    }
    lemma_separator_is(q, 2, s, false);
    lemma_separator_is(q, s + 1, e, false);
    lemma_separator_is(p, 2, s, false);
    lemma_separator_is(p, s + 1, e, false);
    assert(prefix_len(q) == e && prefix_len(p) == e);
    assert forall|k: int| e < k < p.len() implies (#[trigger] p[k]) != '\\' && p[k] != '/' && p[k]
        != '.' by {
        assert(p[k] == name[k - e - 1]);
        assert(name.contains(name[k - e - 1]));
    }
    lemma_component_is(p, e + 1, e + 1, p.len() as int, false);
    lemma_dotless(p, e + 1, p.len() as int);
    assert(p[e + 1] != '.');
    assert(p.subrange(e + 1, p.len() as int) =~= name);
}

/// In a path that is taken literally the names are joined with separators, and
/// `..` takes back the name before it there and then.
#[verifier::rlimit(40)]
pub proof fn law_literal_paths_are_resolved(letter: char, a: Seq<char>, b: Seq<char>)
    requires
        'a' <= letter <= 'z' || 'A' <= letter <= 'Z',
        plain_name(a),
        plain_name(b),
        a[0] != '.',
        b[0] != '.',
        !a.contains(':'),
    ensures
        ({
            let base = seq!['\\', '\\', '?', '\\', letter, ':'];
            &&& joined(base, a) == base + seq!['\\'] + a
            &&& joined(base, a + seq!['\\'] + b) == base + seq!['\\'] + a + seq!['\\'] + b
            &&& joined(base, a + seq!['\\', '.', '.', '\\'] + b) == base + seq!['\\'] + b
        }),
{
    let base = seq!['\\', '\\', '?', '\\', letter, ':'];
    reveal_strlit("\\");
    reveal_strlit(".");
    reveal_strlit("..");
    assert("\\"@ =~= seq!['\\']);
    assert(".."@ =~= seq!['.', '.']);
    assert("."@ =~= seq!['.']);
    assert(prefix_len(base) == 6);
    assert(pieces(base, 6, true) =~= Seq::empty());
    assert(base.take(6) =~= base);
    assert(a[0] != "."@[0] && a[0] != ".."@[0] && b[0] != "."@[0] && b[0] != ".."@[0]);
    if a.len() >= 2 {
        assert(a.contains(a[1]));
    }
    reveal_with_fuel(pieces, 4);
    reveal_with_fuel(walked, 4);
    reveal_with_fuel(spelled, 3);
    let n = a.len() as int;
    let none = Seq::<Seq<char>>::empty();
    // One name.
    lemma_separator_is(a, 0, n, false);
    assert(a.subrange(0, n) =~= a);
    assert(pieces(a, 0, false) =~= seq![a]);
    assert(walked(none, seq![a], 1) =~= seq![a]);
    assert(spelled(seq![a], 1) =~= seq!['\\'] + a);
    assert(joined(base, a) =~= base + seq!['\\'] + a);
    // Two names.
    let two = a + seq!['\\'] + b;
    assert forall|k: int| 0 <= k < two.len() && k != n implies (#[trigger] two[k]) != '\\'
        && two[k] != '/' by {
        if k < n {
            assert(two[k] == a[k]);
        } else {
            assert(two[k] == b[k - n - 1]);
        }
    }
    assert(two[n] == '\\' && two[0] == a[0]);
    lemma_separator_is(two, 0, n, false);
    lemma_separator_is(two, n + 1, two.len() as int, false);
    assert(two.subrange(0, n) =~= a);
    assert(two.subrange(n + 1, two.len() as int) =~= b);
    assert(pieces(two, 0, false) =~= seq![a, b]);
    assert(walked(none, seq![a, b], 2) =~= seq![a, b]);
    assert(spelled(seq![a, b], 2) =~= seq!['\\'] + a + seq!['\\'] + b);
    assert(n >= 2 ==> two[1] == a[1]);
    assert(joined(base, two) =~= base + seq!['\\'] + a + seq!['\\'] + b);
    // A name, back, and another.
    let up = a + seq!['\\', '.', '.', '\\'] + b;
    assert forall|k: int| 0 <= k < up.len() && k != n && k != n + 3 implies (#[trigger] up[k])
        != '\\' && up[k] != '/' by {
        if k < n {
            assert(up[k] == a[k]);
        } else if k > n + 3 {
            assert(up[k] == b[k - n - 4]);
        }
    }
    assert(up[n] == '\\' && up[n + 3] == '\\' && up[0] == a[0]);
    lemma_separator_is(up, 0, n, false);
    lemma_separator_is(up, n + 1, n + 3, false);
    lemma_separator_is(up, n + 4, up.len() as int, false);
    assert(up.subrange(0, n) =~= a);
    assert(up.subrange(n + 1, n + 3) =~= ".."@);
    assert(up.subrange(n + 4, up.len() as int) =~= b);
    let comps = seq![a, ".."@, b];
    assert(pieces(up, 0, false) =~= comps);
    assert(walked(none, comps, 1) =~= seq![a]);
    assert(walked(none, comps, 2) =~= none);
    assert(walked(none, comps, 3) =~= seq![b]);
    assert(spelled(seq![b], 1) =~= seq!['\\'] + b);
    assert(n >= 2 ==> up[1] == a[1]);
    assert(joined(base, up) =~= base + seq!['\\'] + b);
}

/// A name on its own has a stem like any other: `cmd.exe` is `cmd`.
pub proof fn law_bare_names_have_stems(name: Seq<char>, ext: Seq<char>)
    requires
        plain_name(name),
        plain_name(ext),
        !name.contains(':'),
        !ext.contains('.'),
    ensures
        file_stem(name + seq!['.'] + ext) == Some(name),
        !name.contains('.') ==> file_stem(name) == Some(name),
{
    let dot = name.len() as int;
    let p = name + seq!['.'] + ext;
    let end = p.len() as int;
    assert forall|k: int| 0 <= k < end implies (#[trigger] p[k]) != '\\' && p[k] != '/' by {
        if k < dot {
            assert(p[k] == name[k]);
        } else if k > dot {
            assert(p[k] == ext[k - dot - 1]);
        }
    }
    assert forall|k: int| dot < k < end implies (#[trigger] p[k]) != '.' by {
        assert(p[k] == ext[k - dot - 1]);
        assert(ext.contains(ext[k - dot - 1]));
    }
    assert(p[dot] == '.');
    if dot >= 2 {
        assert(name.contains(name[1]));
        assert(p[1] == name[1]);
    }
    lemma_component_is(p, 0, 0, end, false);
    lemma_dot_is_last(p, 0, end, dot);
    assert(p.subrange(0, dot) =~= name);
    if !name.contains('.') {
        assert forall|k: int| 0 <= k < dot implies (#[trigger] name[k]) != '.' by {
            assert(name.contains(name[k]));
        }
        lemma_component_is(name, 0, 0, dot, false);
        lemma_dotless(name, 0, dot);
        assert(name[0] != '.');
        assert(name.subrange(0, dot) =~= name);
    }
}

/// A server without a share is no place on the network yet: it is a name like any
/// other.
pub proof fn law_a_server_alone_is_a_name(server: Seq<char>)
    requires
        plain_name(server),
        server != seq!['?'],
        !server.contains('.'),
    ensures
        file_stem(seq!['\\', '\\'] + server) == Some(server),
        file_stem(seq!['\\', '\\'] + server + seq!['\\']) == Some(server),
{
    let n = server.len() as int;
    let p = seq!['\\', '\\'] + server;
    let q = p + seq!['\\'];
    assert forall|k: int| 2 <= k < n + 2 implies (#[trigger] p[k]) != '\\' && p[k] != '/' && p[k]
        != '.' && q[k] == p[k] by {
        assert(p[k] == server[k - 2]);
        assert(server.contains(server[k - 2]));
    }
    assert forall|k: int| 2 <= k < n + 2 implies (#[trigger] q[k]) != '\\' && q[k] != '/' && q[k]
        != '.' by {
        assert(q[k] == p[k]);
    }
    assert(p[0] == '\\' && p[1] == '\\' && q[0] == '\\' && q[1] == '\\' && q[n + 2] == '\\');
    assert(server.len() == 1 ==> server =~= seq![server[0]]);
    assert(p[2] == server[0] && q[2] == server[0]);
    lemma_separator_is(p, 2, n + 2, false);
    lemma_separator_is(q, 2, n + 2, false);
    lemma_separator_is(q, n + 3, n + 3, false);
    assert(prefix_len(p) == 0 && prefix_len(q) == 0);
    lemma_component_is(p, 1, 2, n + 2, false);
    lemma_dotless(p, 2, n + 2);
    assert(p.subrange(2, n + 2) =~= server);
    lemma_component_is(q, 1, n + 3, n + 3, false);
    lemma_component_is(q, 1, 2, n + 2, false);
    lemma_dotless(q, 2, n + 2);
    assert(q.subrange(2, n + 2) =~= server);
    reveal_with_fuel(last_name, 2);
}

/// `..` takes back the name before it, where there is one; a component that was
/// taken literally is no name to take back.
pub proof fn law_going_back_takes_a_name(parts: Seq<Seq<char>>, name: Seq<char>)
    requires
        name != "."@,
        name != ".."@,
    ensures
        stepped(parts.push(name), ".."@) == parts,
        stepped(parts.push("."@), ".."@) == parts.push("."@),
        stepped(parts.push(".."@), ".."@) == parts.push(".."@),
        stepped(Seq::empty(), ".."@).len() == 0,
        stepped(parts, "."@) == parts,
        stepped(parts, name) == parts.push(name),
{
    reveal_strlit(".");
    reveal_strlit("..");
    assert("."@.len() == 1 && ".."@.len() == 2);
    assert(parts.push(name).drop_last() =~= parts);
}

} // verus!
