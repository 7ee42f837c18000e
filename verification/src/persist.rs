//! What is remembered between runs.
//!
//! The shells do not survive a restart of the machine. What can is everything
//! around them: which terminals there were, what they were called, the directory
//! each was working in, and what it had printed. It is written to
//! `%APPDATA%\mux\session.json`.
use crate::grid::model::minus;
use crate::proto::{copy_opt, opt_text};
use crate::sessions::Snapshot;
use crate::text::{
    begins_with, copy_text, from_chars, same_text, texts, to_chars, trim, trim_end, trim_end_at,
    trim_start_at,
};
use crate::windows_path::{join, joined};
use vstd::prelude::*;
use vstd::utf8::{char_is_scalar, encode_scalar, encode_utf8};

verus! {

/// How much of a terminal's text is worth writing to disk, in bytes.
pub const SAVED_SCROLLBACK: usize = 131072;

/// How much of the end of a text is looked through for a prompt, in bytes.
pub const PROMPT_TAIL: usize = 8192;

/// How many lines are looked through for a prompt.
pub const PROMPT_LINES: usize = 80;

/// One terminal, as it was when the app last closed.
#[derive(Clone, Debug)]
pub struct SavedTerminal {
    pub id: u32,
    /// What it was renamed to, if it was.
    pub name: Option<String>,
    pub shell: String,
    pub cwd: Option<String>,
    pub scrollback: String,
    pub browser_open: bool,
    pub url: String,
}

impl Default for SavedTerminal {
    fn default() -> (t: Self)
        ensures
            t@ == (SavedModel {
                id: 0,
                name: None,
                shell: ""@,
                cwd: None,
                scrollback: ""@,
                browser_open: false,
                url: ""@,
            }),
    {
        SavedTerminal {
            id: 0,
            name: None,
            shell: copy_text(""),
            cwd: None,
            scrollback: copy_text(""),
            browser_open: false,
            url: copy_text(""),
        }
    }
}

#[derive(Clone, Debug)]
pub struct Layout {
    pub active: Option<u32>,
    pub terminals: Vec<SavedTerminal>,
}

impl Default for Layout {
    fn default() -> (l: Self)
        ensures
            l.active is None,
            l.terminals@ == Seq::<SavedTerminal>::empty(),
    {
        Layout { active: None, terminals: Vec::new() }
    }
}

/// A [`SavedTerminal`] with its texts as characters.
#[verifier::ext_equal]
pub struct SavedModel {
    pub id: u32,
    pub name: Option<Seq<char>>,
    pub shell: Seq<char>,
    pub cwd: Option<Seq<char>>,
    pub scrollback: Seq<char>,
    pub browser_open: bool,
    pub url: Seq<char>,
}

impl View for SavedTerminal {
    type V = SavedModel;

    open spec fn view(&self) -> SavedModel {
        SavedModel {
            id: self.id,
            name: opt_text(self.name),
            shell: self.shell@,
            cwd: opt_text(self.cwd),
            scrollback: self.scrollback@,
            browser_open: self.browser_open,
            url: self.url@,
        }
    }
}

pub open spec fn saved_of(v: Seq<SavedTerminal>) -> Seq<SavedModel> {
    Seq::new(v.len(), |i: int| v[i]@)
}

// ---- where it goes --------------------------------------------------------------

/// The folder: under the user's application data, or else where temporary files
/// go.
pub open spec fn folder(appdata: Option<Seq<char>>, temp: Seq<char>) -> Seq<char> {
    joined(
        match appdata {
            Some(dir) => dir,
            None => temp,
        },
        "mux"@,
    )
}

/// The folder that the session file is in.
pub fn directory(appdata: &Option<String>, temp: &str) -> (out: String)
    ensures
        out@ == folder(opt_text(*appdata), temp@),
{
    match appdata {
        Some(dir) => join(dir.as_str(), "mux"),
        None => join(temp, "mux"),
    }
}

/// The session file.
pub fn path(appdata: &Option<String>, temp: &str) -> (out: String)
    ensures
        out@ == joined(folder(opt_text(*appdata), temp@), "session.json"@),
{
    let dir = directory(appdata, temp);
    join(dir.as_str(), "session.json")
}

/// The file that is written first and then renamed to the session file, so that
/// a save that is cut short costs nothing.
pub fn temp_path(appdata: &Option<String>, temp: &str) -> (out: String)
    ensures
        out@ == joined(folder(opt_text(*appdata), temp@), "session.json.tmp"@),
{
    let dir = directory(appdata, temp);
    join(dir.as_str(), "session.json.tmp")
}

// ---- the end of a text ----------------------------------------------------------

/// The longest end of `s` that takes at most `limit` bytes.
pub open spec fn end_within(s: Seq<char>, limit: int) -> Seq<char>
    decreases s.len(),
{
    if s.len() > 0 && encode_utf8(s).len() > limit {
        end_within(s.skip(1), limit)
    } else {
        s
    }
}

/// The shortest end of `s` that takes at least `n` bytes, or all of it.
pub open spec fn end_covering(s: Seq<char>, n: int) -> Seq<char>
    decreases s.len(),
{
    if s.len() > 0 && encode_utf8(s.skip(1)).len() >= n {
        end_covering(s.skip(1), n)
    } else {
        s
    }
}

fn char_bytes(c: char) -> (n: usize)
    ensures
        n == encode_scalar(c as u32).len(),
        1 <= n <= 4,
{
    proof {
        char_is_scalar(c);
    }
    let v: u32 = c as u32;
    if v <= 0x7f {
        1
    } else if v <= 0x7ff {
        2
    } else if v <= 0xffff {
        3
    } else {
        4
    }
}

proof fn lemma_end_bytes(s: Seq<char>, i: int)
    requires
        0 <= i < s.len(),
    ensures
        encode_utf8(s.skip(i)).len() == encode_scalar(s[i] as u32).len() + encode_utf8(
            s.skip(i + 1),
        ).len(),
{
    assert(s.skip(i).drop_first() =~= s.skip(i + 1));
    assert(s.skip(i)[0] == s[i]);
    assert(encode_utf8(s.skip(i)) =~= encode_scalar(s[i] as u32) + encode_utf8(s.skip(i + 1)));
}

proof fn lemma_end_shrinks(s: Seq<char>, i: int, j: int)
    requires
        0 <= i <= j <= s.len(),
    ensures
        encode_utf8(s.skip(j)).len() <= encode_utf8(s.skip(i)).len(),
    decreases j - i,
{
    if i < j {
        lemma_end_bytes(s, i);
        lemma_end_shrinks(s, i + 1, j);
    }
}

proof fn lemma_end_within(s: Seq<char>, limit: int, i: int, k: int)
    requires
        0 <= k <= i <= s.len(),
        encode_utf8(s.skip(i)).len() <= limit || i == s.len(),
        i > 0 ==> encode_utf8(s.skip(i - 1)).len() > limit,
    ensures
        end_within(s.skip(k), limit) == s.skip(i),
    decreases i - k,
{
    if k < i {
        lemma_end_shrinks(s, k, i - 1);
        assert(s.skip(k).skip(1) =~= s.skip(k + 1));
        lemma_end_within(s, limit, i, k + 1);
    }
}

proof fn lemma_end_covering(s: Seq<char>, n: int, i: int, k: int)
    requires
        0 <= k <= i <= s.len(),
        i < s.len() ==> encode_utf8(s.skip(i + 1)).len() < n,
        i > 0 ==> encode_utf8(s.skip(i)).len() >= n,
    ensures
        end_covering(s.skip(k), n) == s.skip(i),
    decreases i - k,
{
    assert(k < s.len() ==> s.skip(k).skip(1) =~= s.skip(k + 1));
    if k < i {
        lemma_end_shrinks(s, k + 1, i);
        lemma_end_covering(s, n, i, k + 1);
    }
}

/// Cut a text to what is worth keeping, and keep its end.
pub fn trim_scrollback(text: &str) -> (out: String)
    ensures
        out@ == end_within(text@, SAVED_SCROLLBACK as int),
{
    let v = to_chars(text);
    let n: usize = v.len();
    let mut i: usize = n;
    let mut bytes: usize = 0;
    assert(text@.skip(n as int) =~= Seq::<char>::empty());
    assert(encode_utf8(text@.skip(n as int)).len() == 0);
    while i > 0
        invariant
            i <= n,
            n == v@.len(),
            v@ == text@,
            bytes == encode_utf8(text@.skip(i as int)).len(),
            bytes <= SAVED_SCROLLBACK,
        decreases i,
    {
        proof {
            lemma_end_bytes(text@, i - 1);
        }
        let w: usize = char_bytes(v[i - 1]);
        if bytes + w > SAVED_SCROLLBACK {
            proof {
                lemma_end_within(text@, SAVED_SCROLLBACK as int, i as int, 0);
                assert(text@.skip(0) =~= text@);
            }
            assert(v@.subrange(i as int, n as int) =~= text@.skip(i as int));
            return from_chars(&v, i, n);
        }
        bytes += w;
        i -= 1;
    }
    assert(text@.skip(0) =~= text@);
    copy_text(text)
}

/// The end of a text in which a prompt is looked for.
fn tail_of(text: &str) -> (out: String)
    ensures
        out@ == end_covering(text@, PROMPT_TAIL as int),
{
    let v = to_chars(text);
    let n: usize = v.len();
    let mut i: usize = n;
    let mut bytes: usize = 0;
    assert(text@.skip(n as int) =~= Seq::<char>::empty());
    assert(encode_utf8(text@.skip(n as int)).len() == 0);
    while i > 0 && bytes < PROMPT_TAIL
        invariant
            i <= n,
            n == v@.len(),
            v@ == text@,
            bytes == encode_utf8(text@.skip(i as int)).len(),
            bytes <= PROMPT_TAIL + 4,
            i < n ==> encode_utf8(text@.skip(i + 1)).len() < PROMPT_TAIL,
        decreases i,
    {
        proof {
            lemma_end_bytes(text@, i - 1);
        }
        bytes += char_bytes(v[i - 1]);
        i -= 1;
    }
    proof {
        lemma_end_covering(text@, PROMPT_TAIL as int, i as int, 0);
        assert(text@.skip(0) =~= text@);
    }
    assert(v@.subrange(i as int, n as int) =~= text@.skip(i as int));
    from_chars(&v, i, n)
}

// ---- escape sequences -----------------------------------------------------------

/// The place after the control sequence whose parameters begin at `i`: one
/// character from `@` to `~` ends it.
pub open spec fn after_csi(s: Seq<char>, i: int) -> int
    decreases s.len() - i,
{
    if i >= s.len() {
        s.len() as int
    } else if '\u{40}' <= s[i] <= '\u{7e}' {
        i + 1
    } else {
        after_csi(s, i + 1)
    }
}

/// The place after the system command whose text begins at `i`: it runs until
/// BEL, or until ESC and one more.
pub open spec fn after_osc(s: Seq<char>, i: int) -> int
    decreases s.len() - i,
{
    if i >= s.len() {
        s.len() as int
    } else if s[i] == '\u{7}' {
        i + 1
    } else if s[i] == '\u{1b}' {
        i + 2
    } else {
        after_osc(s, i + 1)
    }
}

/// The place after the escape sequence whose ESC stands at `i`.
pub open spec fn after_escape(s: Seq<char>, i: int) -> int {
    if i + 1 >= s.len() {
        i + 1
    } else if s[i + 1] == '[' {
        after_csi(s, i + 2)
    } else if s[i + 1] == ']' {
        after_osc(s, i + 2)
    } else if s[i + 1] == '(' || s[i + 1] == ')' {
        i + 3
    } else {
        i + 2
    }
}

proof fn lemma_after_csi(s: Seq<char>, i: int)
    ensures
        after_csi(s, i) >= s.len() || after_csi(s, i) > i,
    decreases s.len() - i,
{
    if i < s.len() && !('\u{40}' <= s[i] <= '\u{7e}') {
        lemma_after_csi(s, i + 1);
    }
}

proof fn lemma_after_osc(s: Seq<char>, i: int)
    ensures
        after_osc(s, i) >= s.len() || after_osc(s, i) > i,
    decreases s.len() - i,
{
    if i < s.len() && s[i] != '\u{7}' && s[i] != '\u{1b}' {
        lemma_after_osc(s, i + 1);
    }
}

/// The text from place `i` on without its escape sequences.
pub open spec fn stripped(s: Seq<char>, i: int) -> Seq<char>
    decreases s.len() - i,
    via stripped_decreases
{
    if i >= s.len() {
        Seq::empty()
    } else if s[i] != '\u{1b}' {
        seq![s[i]] + stripped(s, i + 1)
    } else if after_escape(s, i) < s.len() {
        stripped(s, after_escape(s, i))
    } else {
        Seq::empty()
    }
}

#[via_fn]
proof fn stripped_decreases(s: Seq<char>, i: int) {
    if 0 <= i + 1 < s.len() {
        lemma_after_csi(s, i + 2);
        lemma_after_osc(s, i + 2);
    } else if i < s.len() {
        lemma_after_csi(s, i + 2);
        lemma_after_osc(s, i + 2);
    }
}

/// Remove the escape sequences, and leave the text. Good enough to find a
/// prompt; not an emulator.
pub fn strip_escapes(text: &str) -> (out: String)
    ensures
        out@ == stripped(text@, 0),
{
    let v = to_chars(text);
    let n: usize = v.len();
    let mut out = String::new();
    let mut i: usize = 0;
    assert(out@ + stripped(text@, 0) =~= stripped(text@, 0));
    while i < n
        invariant
            n == v@.len(),
            v@ == text@,
            i <= n,
            out@ + stripped(text@, i as int) == stripped(text@, 0),
        decreases n - i,
    {
        let ghost before = out@;
        if v[i] != '\u{1b}' {
            out.push(v[i]);
            assert(out@ + stripped(text@, i + 1) =~= before + stripped(text@, i as int));
            i += 1;
        } else {
            let next = skip_escape(&v, i);
            if next >= n {
                assert(before + stripped(text@, i as int) =~= before);
                return out;
            }
            i = next;
        }
    }
    assert(out@ + Seq::<char>::empty() =~= out@);
    out
}

fn skip_escape(v: &Vec<char>, i: usize) -> (at: usize)
    requires
        i < v@.len(),
        v@[i as int] == '\u{1b}',
    ensures
        at > i,
        at < v@.len() || after_escape(v@, i as int) < v@.len() ==> at == after_escape(v@, i as int),
        at >= v@.len() <==> after_escape(v@, i as int) >= v@.len(),
{
    let n: usize = v.len();
    if n - i == 1 {
        return n;
    }
    let kind = v[i + 1];
    let mut j: usize = i + 2;
    if kind == '[' {
        while j < n
            invariant
                n == v@.len(),
                i + 2 <= j <= n,
                v@[i + 1] == '[',
                after_csi(v@, j as int) == after_csi(v@, i + 2),
            decreases n - j,
        {
            if '\u{40}' <= v[j] && v[j] <= '\u{7e}' {
                return j + 1;
            }
            j += 1;
        }
        n
    } else if kind == ']' {
        while j < n
            invariant
                n == v@.len(),
                i + 2 <= j <= n,
                v@[i + 1] == ']',
                after_osc(v@, j as int) == after_osc(v@, i + 2),
            decreases n - j,
        {
            if v[j] == '\u{7}' {
                return j + 1;
            }
            if v[j] == '\u{1b}' {
                return if n - j > 2 {
                    j + 2
                } else {
                    n
                };
            }
            j += 1;
        }
        n
    } else if kind == '(' || kind == ')' {
        if n - i > 3 {
            i + 3
        } else {
            n
        }
    } else {
        i + 2
    }
}

// ---- prompts --------------------------------------------------------------------

/// The place of the first line feed from `i` on, or the length.
pub open spec fn line_end(s: Seq<char>, i: int) -> int
    decreases s.len() - i,
{
    if i >= s.len() {
        s.len() as int
    } else if s[i] == '\n' {
        i
    } else {
        line_end(s, i + 1)
    }
}

proof fn lemma_line_end(s: Seq<char>, i: int)
    requires
        i <= s.len(),
    ensures
        i <= line_end(s, i) <= s.len(),
    decreases s.len() - i,
{
    if i < s.len() && s[i] != '\n' {
        lemma_line_end(s, i + 1);
    }
}

/// The lines of a text from place `i` on. A line feed ends a line; there is no
/// empty line behind the last.
pub open spec fn lines_from(s: Seq<char>, i: int) -> Seq<Seq<char>>
    decreases minus(s.len() as int, i),
    via lines_decreases
{
    if i >= s.len() {
        Seq::empty()
    } else {
        seq![s.subrange(i, line_end(s, i))] + lines_from(s, line_end(s, i) + 1)
    }
}

#[via_fn]
proof fn lines_decreases(s: Seq<char>, i: int) {
    if i < s.len() {
        lemma_line_end(s, i);
    }
}

/// The directory in a line that is a prompt: `C:\dir>` or `PS C:\dir>`, and
/// nothing else. With a redirection or a pipe in it, it is a command.
pub open spec fn prompt_dir(line: Seq<char>) -> Option<Seq<char>> {
    let t = trim_end(line);
    let body = t.drop_last();
    let bare = trim(
        if begins_with(body, "PS "@) {
            body.skip(3)
        } else {
            body
        },
    );
    if t.len() > 0 && t.last() == '>' && bare.len() >= 3 && (bare[0] as u32) < 0x80 && bare[1] == ':'
        && !bare.contains('<') && !bare.contains('|') && !bare.contains('"') {
        Some(bare)
    } else {
        None
    }
}

/// The directories that the last `n` lines name in a prompt, the last one
/// first.
pub open spec fn prompt_dirs(lines: Seq<Seq<char>>, n: int) -> Seq<Seq<char>>
    decreases n,
{
    if n <= 0 || lines.len() == 0 {
        Seq::empty()
    } else {
        (match prompt_dir(lines.last()) {
            Some(dir) => seq![dir],
            None => Seq::empty(),
        }) + prompt_dirs(lines.drop_last(), n - 1)
    }
}

/// The directories that prompts at the end of a text name, the last one first.
pub open spec fn candidates(text: Seq<char>) -> Seq<Seq<char>> {
    let plain = stripped(end_covering(text, PROMPT_TAIL as int), 0);
    prompt_dirs(lines_from(plain, 0), PROMPT_LINES as int)
}

fn split_lines(text: &str) -> (out: Vec<String>)
    ensures
        texts(out@) == lines_from(text@, 0),
{
    let v = to_chars(text);
    let n: usize = v.len();
    let mut out: Vec<String> = Vec::new();
    let mut i: usize = 0;
    assert(texts(out@) + lines_from(text@, 0) =~= lines_from(text@, 0));
    while i < n
        invariant
            n == v@.len(),
            v@ == text@,
            i <= n,
            texts(out@) + lines_from(text@, i as int) == lines_from(text@, 0),
        decreases n - i,
    {
        let mut j: usize = i;
        while j < n && v[j] != '\n'
            invariant
                n == v@.len(),
                v@ == text@,
                i <= j <= n,
                line_end(text@, j as int) == line_end(text@, i as int),
            decreases n - j,
        {
            j += 1;
        }
        let ghost before = texts(out@);
        let line = from_chars(&v, i, j);
        out.push(line);
        assert(texts(out@) =~= before.push(line@));
        assert(before + lines_from(text@, i as int) =~= texts(out@) + lines_from(text@, j + 1));
        if j < n {
            i = j + 1;
        } else {
            assert(lines_from(text@, j + 1) =~= Seq::empty());
            i = n;
        }
    }
    assert(texts(out@) + Seq::<Seq<char>>::empty() =~= texts(out@));
    out
}

fn dir_in_prompt(line: &str) -> (res: Option<String>)
    ensures
        res is Some <==> prompt_dir(line@) is Some,
        res matches Some(s) ==> prompt_dir(line@) == Some(s@),
{
    let v = to_chars(line);
    assert(v@.subrange(0, v@.len() as int) =~= line@);
    let end = trim_end_at(&v, 0, v.len());
    let ghost t = trim_end(line@);
    assert(t == v@.subrange(0, end as int));
    if end == 0 || v[end - 1] != '>' {
        return None;
    }
    let stop: usize = end - 1;
    let ghost body = t.drop_last();
    assert(body =~= v@.subrange(0, stop as int));
    let body_text = from_chars(&v, 0, stop);
    let ps = crate::text::text_begins_with(body_text.as_str(), "PS ");
    proof {
        reveal_strlit("PS ");
    }
    let from: usize = if ps {
        3
    } else {
        0
    };
    assert(v@.subrange(from as int, stop as int) =~= (if begins_with(body, "PS "@) {
        body.skip(3)
    } else {
        body
    }));
    let a = trim_start_at(&v, from, stop);
    let b = trim_end_at(&v, a, stop);
    let ghost bare = v@.subrange(a as int, b as int);
    if b - a < 3 || (v[a] as u32) >= 0x80 || v[a + 1] != ':' {
        return None;
    }
    if crate::text::has_char(&v, a, b, '<') || crate::text::has_char(&v, a, b, '|')
        || crate::text::has_char(&v, a, b, '"') {
        return None;
    }
    Some(from_chars(&v, a, b))
}

/// The directories that prompts at the end of a text name, the last one first.
pub fn prompt_candidates(scrollback: &str) -> (out: Vec<String>)
    ensures
        texts(out@) == candidates(scrollback@),
{
    let tail = tail_of(scrollback);
    let plain = strip_escapes(tail.as_str());
    let lines = split_lines(plain.as_str());
    let ghost all = lines_from(plain@, 0);
    let total: usize = lines.len();
    let mut out: Vec<String> = Vec::new();
    let mut k: usize = total;
    let mut left: usize = PROMPT_LINES;
    assert(texts(lines@) == all);
    assert(all.take(total as int) =~= all);
    assert(texts(out@) + prompt_dirs(all, left as int) =~= prompt_dirs(all, left as int));
    while k > 0 && left > 0
        invariant
            k <= total,
            total == lines@.len(),
            total == all.len(),
            texts(lines@) == all,
            texts(out@) + prompt_dirs(all.take(k as int), left as int) == prompt_dirs(
                all,
                PROMPT_LINES as int,
            ),
        decreases k,
    {
        let ghost before = texts(out@);
        let ghost here = all.take(k as int);
        assert(here.last() == lines@[k - 1]@);
        assert(here.drop_last() =~= all.take(k - 1));
        match dir_in_prompt(lines[k - 1].as_str()) {
            Some(dir) => {
                out.push(dir);
                assert(texts(out@) =~= before.push(dir@));
            },
            None => {},
        }
        assert(texts(out@) + prompt_dirs(all.take(k - 1), left - 1) =~= before + prompt_dirs(
            here,
            left as int,
        ));
        k -= 1;
        left -= 1;
    }
    assert(texts(out@) + Seq::<Seq<char>>::empty() =~= texts(out@));
    out
}

/// The first of `names`, from the `i`-th on, that is also one of `dirs`.
pub open spec fn first_among(names: Seq<Seq<char>>, dirs: Seq<Seq<char>>, i: int) -> Option<
    Seq<char>,
>
    decreases names.len() - i,
{
    if i >= names.len() {
        None
    } else if dirs.contains(names[i]) {
        Some(names[i])
    } else {
        first_among(names, dirs, i + 1)
    }
}

pub(crate) fn is_listed(dirs: &Vec<String>, name: &str) -> (res: bool)
    ensures
        res == texts(dirs@).contains(name@),
{
    let mut i: usize = 0;
    while i < dirs.len()
        invariant
            i <= dirs@.len(),
            forall|k: int| 0 <= k < i ==> #[trigger] texts(dirs@)[k] != name@,
        decreases dirs@.len() - i,
    {
        if same_text(dirs[i].as_str(), name) {
            assert(texts(dirs@)[i as int] == name@);
            return true;
        }
        i += 1;
    }
    false
}

/// The directory that a shell's own prompt says it is in. The prompt is what
/// the user is looking at, and it is right where the process is not: Windows
/// PowerShell moves without telling the system. `dirs` are the candidates that
/// are directories on disk.
pub fn cwd_from_prompt(scrollback: &str, dirs: &Vec<String>) -> (res: Option<String>)
    ensures
        res is Some <==> first_among(candidates(scrollback@), texts(dirs@), 0) is Some,
        res matches Some(s) ==> first_among(candidates(scrollback@), texts(dirs@), 0) == Some(s@),
{
    let names = prompt_candidates(scrollback);
    let ghost all = texts(names@);
    let mut i: usize = 0;
    while i < names.len()
        invariant
            i <= names@.len(),
            all == texts(names@),
            all == candidates(scrollback@),
            first_among(all, texts(dirs@), i as int) == first_among(all, texts(dirs@), 0),
        decreases names@.len() - i,
    {
        assert(all[i as int] == names@[i as int]@);
        if is_listed(dirs, names[i].as_str()) {
            return Some(copy_text(names[i].as_str()));
        }
        i += 1;
    }
    None
}

// ---- restoring ------------------------------------------------------------------

/// What a restored terminal shows above its new prompt: out of the alternate
/// screen, then a rule, since everything above it is from a shell that is gone.
pub open spec fn marker(cwd: Option<Seq<char>>) -> Seq<char> {
    "\x1b[?1049l\x1b[0m\r\n\x1b[38;5;244m── restored"@ + (match cwd {
        Some(dir) => " · "@ + dir,
        None => ""@,
    }) + " ── above is the previous session\x1b[0m\r\n"@
}

/// The rule between what was and what is.
pub fn restored_marker(cwd: Option<&str>) -> (out: String)
    ensures
        cwd matches Some(dir) ==> out@ == marker(Some(dir@)),
        cwd is None ==> out@ == marker(None),
{
    let mut out = copy_text("\x1b[?1049l\x1b[0m\r\n\x1b[38;5;244m── restored");
    match cwd {
        Some(dir) => {
            out.push_str(" · ");
            out.push_str(dir);
        },
        None => {
            out.push_str("");
        },
    }
    out.push_str(" ── above is the previous session\x1b[0m\r\n");
    assert(cwd matches Some(dir) ==> out@ =~= marker(Some(dir@)));
    out
}

/// What a restored terminal's backlog is seeded with: what it had printed, and
/// the rule. Nothing where it had printed nothing.
pub open spec fn replay_of(scrollback: Seq<char>, cwd: Option<Seq<char>>) -> Seq<char> {
    if scrollback.len() == 0 {
        Seq::empty()
    } else {
        scrollback + marker(cwd)
    }
}

/// The text that a restored terminal starts with.
pub fn replay_text(scrollback: &str, cwd: Option<&str>) -> (out: String)
    ensures
        cwd matches Some(dir) ==> out@ == replay_of(scrollback@, Some(dir@)),
        cwd is None ==> out@ == replay_of(scrollback@, None),
{
    if to_chars(scrollback).len() == 0 {
        let out = String::new();
        assert(out@ =~= Seq::empty());
        return out;
    }
    let mut out = copy_text(scrollback);
    out.push_str(restored_marker(cwd).as_str());
    out
}

// ---- saving ---------------------------------------------------------------------

/// The text that a terminal is saved with. What the window could not give, the
/// stream stands in for.
pub open spec fn saved_text(t: SavedModel, stream: Seq<char>) -> Seq<char> {
    end_within(
        if t.scrollback.len() == 0 {
            stream
        } else {
            t.scrollback
        },
        SAVED_SCROLLBACK as int,
    )
}

/// A terminal with what the daemon knows filled in. What its prompt says beats
/// what the system says about its directory.
pub open spec fn filled(
    t: SavedModel,
    shell: Seq<char>,
    stream: Seq<char>,
    cwd: Option<Seq<char>>,
    dirs: Seq<Seq<char>>,
) -> SavedModel {
    let text = saved_text(t, stream);
    SavedModel {
        shell,
        scrollback: text,
        cwd: match first_among(candidates(text), dirs, 0) {
            Some(dir) => Some(dir),
            None => cwd,
        },
        ..t
    }
}

/// The text that a terminal will be saved with, for its prompts to be looked at.
pub fn text_to_save(t: &SavedTerminal, snapshot: &Snapshot) -> (out: String)
    ensures
        out@ == saved_text(t@, snapshot.scrollback@),
{
    if to_chars(t.scrollback.as_str()).len() == 0 {
        trim_scrollback(snapshot.scrollback.as_str())
    } else {
        trim_scrollback(t.scrollback.as_str())
    }
}

/// Fill in what the daemon knows about a terminal. `dirs` are the directories
/// its prompts name that exist on disk.
pub fn fill(t: &mut SavedTerminal, snapshot: Snapshot, dirs: &Vec<String>)
    ensures
        final(t)@ == filled(
            old(t)@,
            snapshot.shell@,
            snapshot.scrollback@,
            opt_text(snapshot.cwd),
            texts(dirs@),
        ),
{
    let text = text_to_save(t, &snapshot);
    let found = cwd_from_prompt(text.as_str(), dirs);
    t.scrollback = text;
    t.shell = snapshot.shell;
    t.cwd =
    match found {
        Some(dir) => Some(dir),
        None => snapshot.cwd,
    };
}

/// The first `n` terminals that have a shell.
pub open spec fn with_shell(v: Seq<SavedModel>, n: int) -> Seq<SavedModel>
    decreases n,
{
    if n <= 0 {
        Seq::empty()
    } else if v[n - 1].shell.len() > 0 {
        with_shell(v, n - 1).push(v[n - 1])
    } else {
        with_shell(v, n - 1)
    }
}

/// Leave out the terminals that are gone already: they would come back without
/// history and directory, which is worse than not at all.
pub fn keep_known(layout: Layout) -> (out: Layout)
    ensures
        out.active == layout.active,
        saved_of(out.terminals@) == with_shell(
            saved_of(layout.terminals@),
            layout.terminals@.len() as int,
        ),
{
    let ghost all = saved_of(layout.terminals@);
    let mut kept: Vec<SavedTerminal> = Vec::new();
    let mut i: usize = 0;
    assert(saved_of(kept@) =~= Seq::empty());
    while i < layout.terminals.len()
        invariant
            i <= layout.terminals@.len(),
            all == saved_of(layout.terminals@),
            saved_of(kept@) == with_shell(all, i as int),
        decreases layout.terminals@.len() - i,
    {
        let ghost before = saved_of(kept@);
        assert(all[i as int] == layout.terminals@[i as int]@);
        if to_chars(layout.terminals[i].shell.as_str()).len() > 0 {
            let t = copy_saved(&layout.terminals[i]);
            kept.push(t);
            assert(saved_of(kept@) =~= before.push(all[i as int]));
        }
        i += 1;
    }
    Layout { active: layout.active, terminals: kept }
}

fn copy_saved(t: &SavedTerminal) -> (out: SavedTerminal)
    ensures
        out@ == t@,
{
    SavedTerminal {
        id: t.id,
        name: copy_opt(&t.name),
        shell: copy_text(t.shell.as_str()),
        cwd: copy_opt(&t.cwd),
        scrollback: copy_text(t.scrollback.as_str()),
        browser_open: t.browser_open,
        url: copy_text(t.url.as_str()),
    }
}

// ---- laws -----------------------------------------------------------------------

/// What is kept of a text is its end, whole characters of it, and fits.
pub proof fn law_the_end_is_kept(s: Seq<char>, limit: int)
    requires
        limit >= 0,
    ensures
        end_within(s, limit).len() <= s.len(),
        end_within(s, limit) == s.skip(s.len() - end_within(s, limit).len()),
        encode_utf8(end_within(s, limit)).len() <= limit,
        encode_utf8(s).len() <= limit ==> end_within(s, limit) == s,
    decreases s.len(),
{
    if s.len() > 0 && encode_utf8(s).len() > limit {
        law_the_end_is_kept(s.skip(1), limit);
        let k = end_within(s, limit).len();
        assert(s.skip(1).skip(s.len() - 1 - k) =~= s.skip(s.len() - k));
    } else {
        assert(s.skip(0) =~= s);
        if s.len() == 0 {
            assert(encode_utf8(s).len() == 0);
        }
    }
}

/// Text without an escape survives as it is.
pub proof fn law_plain_text_survives(s: Seq<char>, i: int)
    requires
        0 <= i <= s.len(),
        !s.contains('\u{1b}'),
    ensures
        stripped(s, i) == s.skip(i),
    decreases s.len() - i,
{
    if i < s.len() {
        assert(s.contains(s[i]));
        law_plain_text_survives(s, i + 1);
        assert(seq![s[i]] + s.skip(i + 1) =~= s.skip(i));
    } else {
        assert(s.skip(i) =~= Seq::empty());
    }
}

/// The last prompt wins: where the last line is a prompt in a directory that
/// exists, that is the answer.
pub proof fn law_the_latest_prompt_wins(lines: Seq<Seq<char>>, n: int, dirs: Seq<Seq<char>>)
    requires
        n >= 1,
        lines.len() > 0,
        prompt_dir(lines.last()) is Some,
        dirs.contains(prompt_dir(lines.last()).unwrap()),
    ensures
        first_among(prompt_dirs(lines, n), dirs, 0) == prompt_dir(lines.last()),
{
    let names = prompt_dirs(lines, n);
    assert(names[0] == prompt_dir(lines.last()).unwrap());
}

/// No more of a text is cut off than has to be: with one character more it would
/// not fit.
pub proof fn law_no_more_is_cut_than_has_to_be(s: Seq<char>, limit: int, k: int)
    requires
        limit >= 0,
        0 <= k < s.len() - end_within(s, limit).len(),
    ensures
        encode_utf8(s.skip(k)).len() > limit,
    decreases s.len(),
{
    if s.len() > 0 && encode_utf8(s).len() > limit {
        if k == 0 {
            assert(s.skip(0) =~= s);
        } else {
            law_no_more_is_cut_than_has_to_be(s.skip(1), limit, k - 1);
            assert(s.skip(1).skip(k - 1) =~= s.skip(k));
        }
    }
}

/// The part of a text that is searched for prompts is its end: as much as was
/// asked for, where there is as much, and no more than it takes.
pub proof fn law_the_end_is_searched(s: Seq<char>, n: int)
    ensures
        ({
            let end = end_covering(s, n);
            &&& end.len() <= s.len()
            &&& end == s.skip(s.len() - end.len())
            &&& end == s || encode_utf8(end).len() >= n
            &&& end.len() > 0 ==> encode_utf8(end.skip(1)).len() < n
        }),
    decreases s.len(),
{
    if s.len() > 0 && encode_utf8(s.skip(1)).len() >= n {
        law_the_end_is_searched(s.skip(1), n);
        let k = end_covering(s, n).len();
        assert(s.skip(1).skip(s.len() - 1 - k) =~= s.skip(s.len() - k));
    } else {
        assert(s.skip(0) =~= s);
    }
}

/// Saving keeps what only the window knows: the number of a terminal, its name,
/// whether its browser is open and where. The shell is the one that runs.
pub proof fn law_filling_keeps_what_the_window_knows(
    t: SavedModel,
    shell: Seq<char>,
    stream: Seq<char>,
    cwd: Option<Seq<char>>,
    dirs: Seq<Seq<char>>,
)
    ensures
        ({
            let after = filled(t, shell, stream, cwd, dirs);
            &&& after.id == t.id
            &&& after.name == t.name
            &&& after.browser_open == t.browser_open
            &&& after.url == t.url
            &&& after.shell == shell
        }),
{
}

/// What the window shows of a terminal is saved, and where it shows nothing, what
/// the daemon remembers: all of it where it fits, and else its end.
pub proof fn law_the_text_on_screen_is_saved(
    t: SavedModel,
    shell: Seq<char>,
    stream: Seq<char>,
    cwd: Option<Seq<char>>,
    dirs: Seq<Seq<char>>,
)
    ensures
        ({
            let text = filled(t, shell, stream, cwd, dirs).scrollback;
            let given = if t.scrollback.len() > 0 { t.scrollback } else { stream };
            &&& encode_utf8(given).len() <= 131072 ==> text == given
            &&& text.len() <= given.len()
            &&& text == given.skip(given.len() - text.len())
            &&& encode_utf8(text).len() <= 131072
            &&& text.len() < given.len() ==> encode_utf8(
                given.skip(given.len() - text.len() - 1),
            ).len() > 131072
        }),
{
    let given = if t.scrollback.len() > 0 { t.scrollback } else { stream };
    law_the_end_is_kept(given, SAVED_SCROLLBACK as int);
    let text = end_within(given, SAVED_SCROLLBACK as int);
    if text.len() < given.len() {
        law_no_more_is_cut_than_has_to_be(
            given,
            SAVED_SCROLLBACK as int,
            given.len() - text.len() - 1,
        );
    }
}

/// A directory is found among those that exist: the first that is named, and
/// none where none of those named exists.
pub proof fn law_the_first_that_exists_is_taken(
    names: Seq<Seq<char>>,
    dirs: Seq<Seq<char>>,
    i: int,
)
    requires
        0 <= i <= names.len(),
    ensures
        first_among(names, dirs, i) matches Some(d) ==> dirs.contains(d) && exists|k: int|
            i <= k < names.len() && (#[trigger] names[k]) == d && forall|j: int|
                i <= j < k ==> !dirs.contains(#[trigger] names[j]),
        first_among(names, dirs, i) is None ==> forall|k: int|
            i <= k < names.len() ==> !dirs.contains(#[trigger] names[k]),
    decreases names.len() - i,
{
    if i < names.len() {
        if dirs.contains(names[i]) {
            assert(names[i] == first_among(names, dirs, i).unwrap());
        } else {
            law_the_first_that_exists_is_taken(names, dirs, i + 1);
        }
    }
}

/// The directory that is saved is one that exists, where a prompt names one, and
/// else the one that the system gives.
pub proof fn law_the_prompt_beats_the_system(
    t: SavedModel,
    shell: Seq<char>,
    stream: Seq<char>,
    cwd: Option<Seq<char>>,
    dirs: Seq<Seq<char>>,
)
    ensures
        ({
            let after = filled(t, shell, stream, cwd, dirs);
            let named = candidates(after.scrollback);
            let known = exists|k: int| 0 <= k < named.len() && dirs.contains(#[trigger] named[k]);
            &&& !known ==> after.cwd == cwd
            &&& known ==> (after.cwd matches Some(d) && dirs.contains(d) && named.contains(d))
            &&& named.len() > 0 && dirs.contains(named[0]) ==> after.cwd == Some(named[0])
        }),
{
    let after = filled(t, shell, stream, cwd, dirs);
    let named = candidates(after.scrollback);
    law_the_first_that_exists_is_taken(named, dirs, 0);
}

/// The text of a directory as a prompt holds it.
pub open spec fn is_dir_text(d: Seq<char>) -> bool {
    &&& d.len() >= 3
    &&& (d[0] as u32) < 0x80
    &&& d[1] == ':'
    &&& !d.contains('<')
    &&& !d.contains('|')
    &&& !d.contains('"')
    &&& !crate::text::white_space(d[0])
    &&& !crate::text::white_space(d.last())
}

proof fn lemma_trim_end_keeps(s: Seq<char>, w: Seq<char>)
    requires
        s.len() > 0,
        !crate::text::white_space(s.last()),
        forall|i: int| 0 <= i < w.len() ==> crate::text::white_space(#[trigger] w[i]),
    ensures
        trim_end(s + w) == s,
    decreases w.len(),
{
    if w.len() == 0 {
        assert(s + w =~= s);
    } else {
        assert((s + w).drop_last() =~= s + w.drop_last());
        assert((s + w).last() == w.last());
        lemma_trim_end_keeps(s, w.drop_last());
    }
}

/// A prompt names its directory: the text before `>`, in either spelling, with
/// or without blanks behind it.
pub proof fn law_prompts_name_their_directory(d: Seq<char>, w: Seq<char>)
    requires
        is_dir_text(d),
        forall|i: int| 0 <= i < w.len() ==> crate::text::white_space(#[trigger] w[i]),
    ensures
        prompt_dir(d + ">"@ + w) == Some(d),
        prompt_dir("PS "@ + d + ">"@ + w) == Some(d),
{
    reveal_strlit(">");
    reveal_strlit("PS ");
    let plain = d + ">"@;
    let ps = "PS "@ + d + ">"@;
    assert(plain.last() == '>');
    assert(ps.last() == '>');
    lemma_trim_end_keeps(plain, w);
    lemma_trim_end_keeps(ps, w);
    assert(plain.drop_last() =~= d);
    assert(ps.drop_last() =~= "PS "@ + d);
    assert(begins_with("PS "@ + d, "PS "@)) by {
        assert(("PS "@ + d).take(3) =~= "PS "@);
    }
    assert(("PS "@ + d).skip(3) =~= d);
    assert(!begins_with(d, "PS "@)) by {
        if begins_with(d, "PS "@) {
            assert(d.take(3)[1] == d[1]);
            assert("PS "@[1] == 'S');
        }
    }
    crate::text::law_trimmed_text_stays(d, ' ');
}

/// A line that is no prompt names none: it has to end in `>`, and what it names
/// holds no redirection, pipe or quote and begins with a drive.
pub proof fn law_only_prompts_name_a_directory(line: Seq<char>)
    ensures
        prompt_dir(line) matches Some(d) ==> trim_end(line).last() == '>' && d.len() >= 3 && (
        d[0] as u32) < 0x80 && d[1] == ':' && !d.contains('<') && !d.contains('|') && !d.contains('"') && trim(d) == d,
        trim_end(line).len() == 0 || trim_end(line).last() != '>' ==> prompt_dir(line) is None,
{
    let t = trim_end(line);
    let body = t.drop_last();
    crate::text::lemma_trim_idempotent(
        if begins_with(body, "PS "@) {
            body.skip(3)
        } else {
            body
        },
    );
}

proof fn lemma_csi_ends(s: Seq<char>, i: int, j: int)
    requires
        0 <= i <= j < s.len(),
        forall|k: int| i <= k < j ==> !('\u{40}' <= #[trigger] s[k] <= '\u{7e}'),
        '\u{40}' <= s[j] <= '\u{7e}',
    ensures
        after_csi(s, i) == j + 1,
    decreases j - i,
{
    if i < j {
        lemma_csi_ends(s, i + 1, j);
    }
}

proof fn lemma_osc_ends(s: Seq<char>, i: int, j: int)
    requires
        0 <= i <= j < s.len(),
        forall|k: int| i <= k < j ==> (#[trigger] s[k]) != '\u{7}' && s[k] != '\u{1b}',
        s[j] == '\u{7}',
    ensures
        after_osc(s, i) == j + 1,
    decreases j - i,
{
    if i < j {
        lemma_osc_ends(s, i + 1, j);
    }
}

proof fn lemma_plain_start(a: Seq<char>, rest: Seq<char>, i: int)
    requires
        0 <= i <= a.len(),
        forall|k: int| 0 <= k < a.len() ==> (#[trigger] a[k]) != '\u{1b}',
    ensures
        stripped(a + rest, i) == a.skip(i) + stripped(a + rest, a.len() as int),
    decreases a.len() - i,
{
    if i < a.len() {
        assert((a + rest)[i] == a[i]);
        lemma_plain_start(a, rest, i + 1);
        assert(a.skip(i) =~= seq![a[i]] + a.skip(i + 1));
        assert(stripped(a + rest, i) =~= a.skip(i) + stripped(a + rest, a.len() as int));
    } else {
        assert(a.skip(i) + stripped(a + rest, i) =~= stripped(a + rest, i));
    }
}

proof fn lemma_csi_shifts(s: Seq<char>, k: int, i: int)
    requires
        0 <= k <= s.len(),
        0 <= i,
    ensures
        after_csi(s.skip(k), i) + k == after_csi(s, i + k) || i + k > s.len(),
        after_osc(s.skip(k), i) + k == after_osc(s, i + k) || i + k > s.len(),
    decreases s.len() - k - i,
{
    if i + k < s.len() {
        assert(s.skip(k)[i] == s[i + k]);
        lemma_csi_shifts(s, k, i + 1);
    }
}

proof fn lemma_stripped_shifts(s: Seq<char>, k: int, i: int)
    requires
        0 <= k <= s.len(),
        0 <= i,
    ensures
        stripped(s, i + k) == stripped(s.skip(k), i),
    decreases s.len() - k - i,
{
    let t = s.skip(k);
    if i + k < s.len() {
        assert(t[i] == s[i + k]);
        if s[i + k] != '\u{1b}' {
            lemma_stripped_shifts(s, k, i + 1);
        } else {
            if i + 1 < t.len() {
                assert(t[i + 1] == s[i + 1 + k]);
                lemma_csi_shifts(s, k, i + 2);
            }
            assert(after_escape(s, i + k) == after_escape(t, i) + k || after_escape(s, i + k)
                >= s.len() && after_escape(t, i) >= t.len());
            if after_escape(s, i + k) < s.len() {
                lemma_after_csi(t, i + 2);
                lemma_after_osc(t, i + 2);
                lemma_stripped_shifts(s, k, after_escape(t, i));
            }
        }
    }
}

/// Escape sequences are cut out of a text, and the text around them stays: a
/// control sequence up to its final character, a system command up to its bell.
#[verifier::rlimit(40)]
pub proof fn law_sequences_are_cut_out(
    a: Seq<char>,
    inner: Seq<char>,
    end: char,
    b: Seq<char>,
)
    requires
        forall|k: int| 0 <= k < a.len() ==> (#[trigger] a[k]) != '\u{1b}',
    ensures
        (forall|k: int| 0 <= k < inner.len() ==> !('\u{40}' <= (#[trigger] inner[k]) <= '\u{7e}'))
            && '\u{40}' <= end <= '\u{7e}' ==> stripped(
            a + seq!['\u{1b}', '['] + inner + seq![end] + b,
            0,
        ) == a + stripped(b, 0),
        (forall|k: int|
            0 <= k < inner.len() ==> (#[trigger] inner[k]) != '\u{7}' && inner[k] != '\u{1b}')
            && end == '\u{7}' ==> stripped(
            a + seq!['\u{1b}', ']'] + inner + seq![end] + b,
            0,
        ) == a + stripped(b, 0),
{
    let n = a.len() as int;
    let j = n + 2 + inner.len();
    assert(a.skip(0) =~= a);
    if (forall|k: int| 0 <= k < inner.len() ==> !('\u{40}' <= (#[trigger] inner[k]) <= '\u{7e}'))
        && '\u{40}' <= end <= '\u{7e}' {
        let rest = seq!['\u{1b}', '['] + inner + seq![end] + b;
        let s = a + seq!['\u{1b}', '['] + inner + seq![end] + b;
        assert(s =~= a + rest);
        lemma_plain_start(a, rest, 0);
        assert(s[n] == '\u{1b}' && s[n + 1] == '[');
        assert forall|k: int| n + 2 <= k < j implies !('\u{40}' <= #[trigger] s[k] <= '\u{7e}') by {
            assert(s[k] == inner[k - n - 2]);
        }
        assert(s[j] == end);
        lemma_csi_ends(s, n + 2, j);
        assert(s.skip(j + 1) =~= b);
        lemma_stripped_shifts(s, j + 1, 0);
        assert(stripped(b, 0) =~= stripped(s, j + 1));
        assert(j + 1 >= s.len() ==> stripped(s, j + 1) =~= Seq::empty());
        assert(stripped(s, n) =~= stripped(b, 0));
    }
    if (forall|k: int|
        0 <= k < inner.len() ==> (#[trigger] inner[k]) != '\u{7}' && inner[k] != '\u{1b}') && end
        == '\u{7}' {
        let rest = seq!['\u{1b}', ']'] + inner + seq![end] + b;
        let s = a + seq!['\u{1b}', ']'] + inner + seq![end] + b;
        assert(s =~= a + rest);
        lemma_plain_start(a, rest, 0);
        assert(s[n] == '\u{1b}' && s[n + 1] == ']');
        assert forall|k: int| n + 2 <= k < j implies (#[trigger] s[k]) != '\u{7}' && s[k]
            != '\u{1b}' by {
            assert(s[k] == inner[k - n - 2]);
        }
        assert(s[j] == end);
        lemma_osc_ends(s, n + 2, j);
        assert(s.skip(j + 1) =~= b);
        lemma_stripped_shifts(s, j + 1, 0);
        assert(stripped(s, n) =~= stripped(b, 0));
    }
}

/// No escape is left in a text whose sequences were cut out.
pub proof fn law_no_escape_is_left(s: Seq<char>, i: int)
    requires
        0 <= i,
    ensures
        !stripped(s, i).contains('\u{1b}'),
    decreases s.len() - i,
{
    if i < s.len() {
        if s[i] != '\u{1b}' {
            law_no_escape_is_left(s, i + 1);
            let rest = stripped(s, i + 1);
            assert forall|k: int| 0 <= k < stripped(s, i).len() implies stripped(s, i)[k]
                != '\u{1b}' by {
                if k > 0 {
                    assert(stripped(s, i)[k] == rest[k - 1]);
                    assert(rest.contains(rest[k - 1]));
                }
            }
        } else if after_escape(s, i) < s.len() {
            lemma_after_csi(s, i + 2);
            lemma_after_osc(s, i + 2);
            law_no_escape_is_left(s, after_escape(s, i));
        }
    }
}

/// Lines, each with its line feed behind it.
pub open spec fn rejoined(lines: Seq<Seq<char>>) -> Seq<char>
    decreases lines.len(),
{
    if lines.len() == 0 {
        Seq::empty()
    } else {
        lines[0] + seq!['\n'] + rejoined(lines.skip(1))
    }
}

proof fn lemma_line_is_clean(s: Seq<char>, i: int)
    requires
        0 <= i <= s.len(),
    ensures
        i <= line_end(s, i) <= s.len(),
        line_end(s, i) < s.len() ==> s[line_end(s, i)] == '\n',
        forall|k: int| i <= k < line_end(s, i) ==> (#[trigger] s[k]) != '\n',
    decreases s.len() - i,
{
    if i < s.len() && s[i] != '\n' {
        lemma_line_is_clean(s, i + 1);
    }
}

/// The lines of a text, one after the other and each with its line feed, are the
/// text; its last line may go without. No line holds a line feed.
pub proof fn law_lines_make_up_the_text(s: Seq<char>, i: int)
    requires
        0 <= i <= s.len(),
    ensures
        s.len() > i && s.last() != '\n' ==> rejoined(lines_from(s, i)) == s.skip(i) + seq!['\n'],
        s.len() > i && s.last() == '\n' ==> rejoined(lines_from(s, i)) == s.skip(i),
        s.len() == i ==> lines_from(s, i).len() == 0,
        forall|k: int|
            0 <= k < lines_from(s, i).len() ==> !(#[trigger] lines_from(s, i)[k]).contains('\n'),
    decreases s.len() - i,
{
    if i < s.len() {
        let e = line_end(s, i);
        lemma_line_is_clean(s, i);
        let line = s.subrange(i, e);
        let all = lines_from(s, i);
        let rest = lines_from(s, e + 1);
        assert(all.skip(1) =~= rest);
        assert(all[0] == line);
        assert forall|k: int| 0 <= k < all.len() implies !(#[trigger] all[k]).contains('\n') by {
            if k == 0 {
                assert forall|m: int| 0 <= m < line.len() implies line[m] != '\n' by {
                    assert(line[m] == s[i + m]);
                }
            } else {
                if e < s.len() {
                    law_lines_make_up_the_text(s, e + 1);
                }
                assert(all[k] == rest[k - 1]);
            }
        }
        if e < s.len() {
            law_lines_make_up_the_text(s, e + 1);
            if e + 1 < s.len() {
                assert(s.skip(i) =~= line + seq!['\n'] + s.skip(e + 1));
                assert(s.skip(i) + seq!['\n'] =~= line + seq!['\n'] + (s.skip(e + 1) + seq!['\n']));
            } else {
                assert(rejoined(rest) =~= Seq::empty());
                assert(line + seq!['\n'] + Seq::<char>::empty() =~= s.skip(i));
            }
        } else {
            assert(rest =~= Seq::empty());
            assert(rejoined(rest) =~= Seq::empty());
            assert(s[s.len() - 1] != '\n');
            assert(line + seq!['\n'] + Seq::<char>::empty() =~= s.skip(i) + seq!['\n']);
        }
    }
}

proof fn lemma_last_line(s: Seq<char>, m: int, i: int)
    requires
        0 <= i <= m < s.len(),
        m == 0 || s[m - 1] == '\n',
        forall|k: int| m <= k < s.len() ==> (#[trigger] s[k]) != '\n',
    ensures
        lines_from(s, i).len() > 0,
        lines_from(s, i).last() == s.skip(m),
    decreases m - i,
{
    lemma_line_is_clean(s, i);
    let e = line_end(s, i);
    let rest = lines_from(s, e + 1);
    if i == m {
        assert(e == s.len()) by {
            if e < s.len() {
                assert(s[e] != '\n');
            }
        }
        assert(rest =~= Seq::empty());
        assert(s.subrange(m, e) =~= s.skip(m));
    } else {
        assert(e <= m - 1) by {
            if e > m - 1 {
                assert(s[m - 1] != '\n');
            }
        }
        lemma_last_line(s, m, e + 1);
        assert(lines_from(s, i).last() == rest.last());
    }
}

/// The prompt that a terminal ends with is the first to be asked: whatever was
/// printed above it, its directory is the first that is named.
#[verifier::rlimit(40)]
pub proof fn law_the_prompt_at_the_end_is_found(above: Seq<char>, d: Seq<char>, w: Seq<char>)
    requires
        is_dir_text(d),
        !d.contains('\n'),
        !d.contains('\u{1b}'),
        forall|i: int| 0 <= i < w.len() ==> (#[trigger] w[i]) == ' ',
        above.len() == 0 || above.last() == '\n',
        !above.contains('\u{1b}'),
        encode_utf8(above + ("PS "@ + d + ">"@ + w)).len() <= 8192,
    ensures
        candidates(above + ("PS "@ + d + ">"@ + w)).len() > 0,
        candidates(above + ("PS "@ + d + ">"@ + w))[0] == d,
{
    reveal_strlit(">");
    reveal_strlit("PS ");
    let prompt = "PS "@ + d + ">"@ + w;
    let s = above + prompt;
    let m = above.len() as int;
    assert(s.skip(m) =~= prompt);
    lemma_end_bytes(s, 0);
    assert(s.skip(0) =~= s);
    assert(encode_scalar(s[0] as u32).len() >= 1);
    assert(end_covering(s, PROMPT_TAIL as int) == s);
    assert forall|k: int| 0 <= k < s.len() implies s[k] != '\u{1b}' by {
        if k < m {
            assert(above.contains(above[k]));
            assert(s[k] == above[k]);
        } else {
            assert(s[k] == prompt[k - m]);
            lemma_prompt_chars(d, w, k - m, '\u{1b}');
        }
    }
    law_plain_text_survives(s, 0);
    assert forall|k: int| m <= k < s.len() implies (#[trigger] s[k]) != '\n' by {
        assert(s[k] == prompt[k - m]);
        lemma_prompt_chars(d, w, k - m, '\n');
    }
    assert(m > 0 ==> s[m - 1] == above.last());
    lemma_last_line(s, m, 0);
    law_prompts_name_their_directory(d, w);
    let lines = lines_from(s, 0);
    assert(prompt_dir(lines.last()) == Some(d));
    assert(prompt_dirs(lines, PROMPT_LINES as int)[0] == d);
}

proof fn lemma_prompt_chars(d: Seq<char>, w: Seq<char>, k: int, c: char)
    requires
        !d.contains(c),
        c == '\n' || c == '\u{1b}',
        forall|i: int| 0 <= i < w.len() ==> (#[trigger] w[i]) == ' ',
        0 <= k < ("PS "@ + d + ">"@ + w).len(),
    ensures
        ("PS "@ + d + ">"@ + w)[k] != c,
{
    reveal_strlit(">");
    reveal_strlit("PS ");
    let p = "PS "@ + d + ">"@ + w;
    let n = d.len() as int;
    if k < 3 {
        assert(p[k] == "PS "@[k]);
    } else if k < 3 + n {
        assert(p[k] == d[k - 3]);
        assert(d.contains(d[k - 3]));
    } else if k == 3 + n {
        assert(p[k] == '>');
    } else {
        assert(p[k] == w[k - 4 - n]);
    }
}

/// What prompts name are the directories of the last lines, and of no line above
/// them.
pub proof fn law_only_the_last_lines_are_asked(lines: Seq<Seq<char>>, n: int, d: Seq<char>)
    requires
        n >= 0,
    ensures
        prompt_dirs(lines, n).contains(d) <==> exists|k: int|
            0 <= k < lines.len() && lines.len() - n <= k && prompt_dir(#[trigger] lines[k]) == Some(
                d,
            ),
    decreases n,
{
    if n > 0 && lines.len() > 0 {
        let rest = prompt_dirs(lines.drop_last(), n - 1);
        let first = match prompt_dir(lines.last()) {
            Some(x) => seq![x],
            None => Seq::<Seq<char>>::empty(),
        };
        let all = prompt_dirs(lines, n);
        law_only_the_last_lines_are_asked(lines.drop_last(), n - 1, d);
        if all.contains(d) {
            let i = choose|i: int| 0 <= i < all.len() && all[i] == d;
            if i < first.len() {
                assert(prompt_dir(lines[lines.len() - 1]) == Some(d));
            } else {
                assert(rest[i - first.len()] == d);
                let k = choose|k: int|
                    0 <= k < lines.drop_last().len() && lines.drop_last().len() - (n - 1) <= k
                        && prompt_dir(#[trigger] lines.drop_last()[k]) == Some(d);
                assert(lines.drop_last()[k] == lines[k]);
            }
        }
        if exists|k: int|
            0 <= k < lines.len() && lines.len() - n <= k && prompt_dir(#[trigger] lines[k]) == Some(
                d,
            ) {
            let k = choose|k: int|
                0 <= k < lines.len() && lines.len() - n <= k && prompt_dir(#[trigger] lines[k])
                    == Some(d);
            if k == lines.len() - 1 {
                assert(all[0] == d);
            } else {
                assert(lines.drop_last()[k] == lines[k]);
                let i = choose|i: int| 0 <= i < rest.len() && rest[i] == d;
                assert(all[first.len() + i] == d);
            }
        }
    }
}

/// A terminal is saved where it has a shell, and only there; those that are saved
/// stay in their order and as they are.
pub proof fn law_terminals_with_a_shell_are_kept(v: Seq<SavedModel>, n: int, t: SavedModel)
    requires
        0 <= n <= v.len(),
    ensures
        with_shell(v, n).contains(t) <==> t.shell.len() > 0 && exists|k: int|
            0 <= k < n && (#[trigger] v[k]) == t,
        n > 0 && v[n - 1].shell.len() > 0 ==> with_shell(v, n).last() == v[n - 1],
        n > 0 ==> with_shell(v, n - 1) == with_shell(v, n).take(with_shell(v, n - 1).len() as int),
        with_shell(v, n).len() <= n,
        (forall|k: int| 0 <= k < n ==> (#[trigger] v[k]).shell.len() > 0) ==> with_shell(v, n)
            == v.take(n),
    decreases n,
{
    if n > 0 {
        law_terminals_with_a_shell_are_kept(v, n - 1, t);
        let before = with_shell(v, n - 1);
        let all = with_shell(v, n);
        assert(all.take(before.len() as int) =~= before);
        if before.contains(t) {
            let i = choose|i: int| 0 <= i < before.len() && before[i] == t;
            assert(all[i] == t);
        }
        if all.contains(t) {
            let i = choose|i: int| 0 <= i < all.len() && all[i] == t;
            if i < before.len() {
                assert(before[i] == t);
            } else {
                assert(v[n - 1] == t);
            }
        }
        if v[n - 1] == t && t.shell.len() > 0 {
            assert(all.last() == t);
            assert(all[all.len() - 1] == t);
        }
        if forall|k: int| 0 <= k < n ==> (#[trigger] v[k]).shell.len() > 0 {
            assert(v[n - 1].shell.len() > 0);
            assert(v.take(n) =~= v.take(n - 1).push(v[n - 1]));
        }
    } else {
        assert(v.take(0) =~= Seq::empty());
    }
}

/// What a restored terminal shows first is what it showed before, and below that
/// a rule that ends its line; where there was nothing, it shows nothing. The
/// rule tells the directory that the terminal is restored to.
pub proof fn law_the_old_text_comes_back(text: Seq<char>, cwd: Option<Seq<char>>)
    ensures
        ({
            let all = replay_of(text, cwd);
            &&& text.len() == 0 ==> all.len() == 0
            &&& text.len() > 0 ==> begins_with(all, text) && all.len() > text.len()
            &&& text.len() > 0 ==> all.last() == '\n'
            &&& text.len() > 0 ==> (cwd matches Some(dir) ==> crate::text::occurs_in(all, dir))
        }),
{
    let all = replay_of(text, cwd);
    reveal_strlit(" ── above is the previous session\x1b[0m\r\n");
    if text.len() > 0 {
        assert(all.take(text.len() as int) =~= text);
        let head = "\x1b[?1049l\x1b[0m\r\n\x1b[38;5;244m── restored"@;
        let tail = " ── above is the previous session\x1b[0m\r\n"@;
        assert(all.last() == tail.last());
        match cwd {
            Some(dir) => {
                let a = text + head + " · "@;
                assert(all =~= a + dir + tail);
                crate::text::law_occurring_means_in_between(a, dir, tail);
            },
            None => {},
        }
    }
}

/// The session goes under the user's application data where there is such a
/// place, wherever temporary files go, and else where those go.
pub proof fn law_the_session_has_its_folder(dir: Seq<char>, temp: Seq<char>, other: Seq<char>)
    ensures
        folder(Some(dir), temp) == folder(Some(dir), other),
        folder(Some(dir), temp) == joined(dir, "mux"@),
        folder(None, temp) == joined(temp, "mux"@),
{
}

/// A system command may also end in ESC and one more; a character set takes one
/// character behind its bracket, and any other escape takes one character.
#[verifier::rlimit(40)]
pub proof fn law_short_sequences_are_cut_out(
    a: Seq<char>,
    inner: Seq<char>,
    c: char,
    b: Seq<char>,
)
    requires
        forall|k: int| 0 <= k < a.len() ==> (#[trigger] a[k]) != '\u{1b}',
        forall|k: int| 0 <= k < inner.len() ==> (#[trigger] inner[k]) != '\u{7}' && inner[k]
            != '\u{1b}',
    ensures
        stripped(a + seq!['\u{1b}', ']'] + inner + seq!['\u{1b}', c] + b, 0) == a + stripped(b, 0),
        stripped(a + seq!['\u{1b}', '(', c] + b, 0) == a + stripped(b, 0),
        stripped(a + seq!['\u{1b}', ')', c] + b, 0) == a + stripped(b, 0),
        c != '[' && c != ']' && c != '(' && c != ')' ==> stripped(a + seq!['\u{1b}', c] + b, 0) == a
            + stripped(b, 0),
{
    let n = a.len() as int;
    let m = inner.len() as int;
    let s = a + seq!['\u{1b}', ']'] + inner + seq!['\u{1b}', c] + b;
    assert(s[n] == '\u{1b}' && s[n + 1] == ']' && s[n + 2 + m] == '\u{1b}');
    assert forall|k: int| n + 2 <= k < n + 2 + m implies (#[trigger] s[k]) != '\u{7}' && s[k]
        != '\u{1b}' by {
        assert(s[k] == inner[k - n - 2]);
    }
    lemma_command_runs_to_escape(s, n + 2, n + 2 + m);
    lemma_cut_at(s, n + 4 + m, a, b);
    let p = a + seq!['\u{1b}', '(', c] + b;
    assert(p[n] == '\u{1b}' && p[n + 1] == '(');
    lemma_cut_at(p, n + 3, a, b);
    let q = a + seq!['\u{1b}', ')', c] + b;
    assert(q[n] == '\u{1b}' && q[n + 1] == ')');
    lemma_cut_at(q, n + 3, a, b);
    if c != '[' && c != ']' && c != '(' && c != ')' {
        let t = a + seq!['\u{1b}', c] + b;
        assert(t[n] == '\u{1b}' && t[n + 1] == c);
        lemma_cut_at(t, n + 2, a, b);
    }
}

proof fn lemma_command_runs_to_escape(s: Seq<char>, i: int, e: int)
    requires
        0 <= i <= e < s.len(),
        s[e] == '\u{1b}',
        forall|k: int| i <= k < e ==> (#[trigger] s[k]) != '\u{7}' && s[k] != '\u{1b}',
    ensures
        after_osc(s, i) == e + 2,
    decreases e - i,
{
    if i < e {
        lemma_command_runs_to_escape(s, i + 1, e);
    }
}

proof fn lemma_cut_at(s: Seq<char>, m: int, a: Seq<char>, b: Seq<char>)
    requires
        a.len() < m <= s.len(),
        forall|k: int| 0 <= k < a.len() ==> (#[trigger] a[k]) != '\u{1b}',
        s.take(a.len() as int) =~= a,
        s[a.len() as int] == '\u{1b}',
        after_escape(s, a.len() as int) == m,
        s.skip(m) =~= b,
    ensures
        stripped(s, 0) == a + stripped(b, 0),
{
    let n = a.len() as int;
    let rest = s.skip(n);
    assert(s =~= a + rest);
    assert(a.skip(0) =~= a);
    lemma_plain_start(a, rest, 0);
    lemma_stripped_shifts(s, m, 0);
    assert(m >= s.len() ==> stripped(s, m) =~= Seq::empty());
    assert(stripped(s, n) =~= stripped(b, 0));
}

/// The model of a saved terminal shows all that is saved of it.
pub proof fn law_a_saved_terminal_shows_all(t: SavedTerminal)
    ensures
        t@.id == t.id && t@.shell == t.shell@ && t@.scrollback == t.scrollback@,
        t@.browser_open == t.browser_open && t@.url == t.url@,
        t.name matches Some(x) ==> t@.name == Some(x@),
        t.name is None ==> t@.name is None,
        t.cwd matches Some(x) ==> t@.cwd == Some(x@),
        t.cwd is None ==> t@.cwd is None,
{
}

/// The last eighty lines of a terminal are asked for a prompt, and no line above
/// them.
pub proof fn law_eighty_lines_are_asked(s: Seq<char>, d: Seq<char>)
    requires
        s.len() > 0,
        !s.contains('\u{1b}'),
        encode_utf8(s).len() <= 8192,
    ensures
        ({
            let lines = lines_from(s, 0);
            candidates(s).contains(d) <==> exists|k: int|
                0 <= k < lines.len() && lines.len() - 80 <= k && prompt_dir(#[trigger] lines[k])
                    == Some(d)
        }),
{
    lemma_end_bytes(s, 0);
    assert(s.skip(0) =~= s);
    assert(encode_scalar(s[0] as u32).len() >= 1);
    assert(end_covering(s, PROMPT_TAIL as int) == s);
    law_plain_text_survives(s, 0);
    law_only_the_last_lines_are_asked(lines_from(s, 0), 80, d);
}

} // verus!
