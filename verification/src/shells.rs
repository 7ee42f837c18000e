//! Which shells this machine can offer.
//!
//! The order is the order of preference, most colourful first: `cmd.exe` never
//! emits any colour, and as the default it would make the app look as if it had
//! none.
use crate::persist::is_listed;
use crate::text::{copy_text, texts, to_chars};
use crate::windows_path::{join, joined};
use vstd::prelude::*;

verus! {

#[derive(Clone, Debug)]
pub struct Shell {
    /// What the picker shows.
    pub name: String,
    /// What is started.
    pub program: String,
}

/// How many candidates there are.
pub const CANDIDATES: usize = 4;

/// What the picker shows for the `k`-th candidate.
pub open spec fn candidate_name(k: int) -> Seq<char> {
    if k == 0 {
        "PowerShell 7"@
    } else if k == 1 {
        "Windows PowerShell"@
    } else if k == 2 {
        "WSL"@
    } else {
        "Command Prompt"@
    }
}

/// The program of the `k`-th candidate.
pub open spec fn candidate_program(k: int) -> Seq<char> {
    if k == 0 {
        "pwsh.exe"@
    } else if k == 1 {
        "powershell.exe"@
    } else if k == 2 {
        "wsl.exe"@
    } else {
        "cmd.exe"@
    }
}

fn name_of(k: usize) -> (s: &'static str)
    ensures
        s@ == candidate_name(k as int),
{
    if k == 0 {
        "PowerShell 7"
    } else if k == 1 {
        "Windows PowerShell"
    } else if k == 2 {
        "WSL"
    } else {
        "Command Prompt"
    }
}

/// The program of the `k`-th candidate, best first.
pub fn program_of(k: usize) -> (s: &'static str)
    ensures
        s@ == candidate_program(k as int),
{
    if k == 0 {
        "pwsh.exe"
    } else if k == 1 {
        "powershell.exe"
    } else if k == 2 {
        "wsl.exe"
    } else {
        "cmd.exe"
    }
}

/// The first `n` candidates that are present, as name and program.
pub open spec fn offered(present: Seq<Seq<char>>, n: int) -> Seq<(Seq<char>, Seq<char>)>
    decreases n,
{
    if n <= 0 {
        Seq::empty()
    } else if present.contains(candidate_program(n - 1)) {
        offered(present, n - 1).push((candidate_name(n - 1), candidate_program(n - 1)))
    } else {
        offered(present, n - 1)
    }
}

/// What a list of shells says.
pub open spec fn shells_of(v: Seq<Shell>) -> Seq<(Seq<char>, Seq<char>)> {
    Seq::new(v.len(), |i: int| (v[i].name@, v[i].program@))
}

/// Every shell present, best first. `present` are the programs that were found.
pub fn available(present: &Vec<String>) -> (out: Vec<Shell>)
    ensures
        shells_of(out@) == offered(texts(present@), CANDIDATES as int),
{
    let mut out: Vec<Shell> = Vec::new();
    let mut k: usize = 0;
    assert(shells_of(out@) =~= Seq::empty());
    while k < CANDIDATES
        invariant
            k <= CANDIDATES,
            shells_of(out@) == offered(texts(present@), k as int),
        decreases CANDIDATES - k,
    {
        let ghost before = shells_of(out@);
        if is_listed(present, program_of(k)) {
            out.push(Shell { name: copy_text(name_of(k)), program: copy_text(program_of(k)) });
            assert(shells_of(out@) =~= before.push(
                (candidate_name(k as int), candidate_program(k as int)),
            ));
        }
        k += 1;
    }
    out
}

/// The shell that a new terminal gets where none is chosen.
pub open spec fn preferred(present: Seq<Seq<char>>) -> Seq<char> {
    let shells = offered(present, CANDIDATES as int);
    if shells.len() > 0 {
        shells[0].1
    } else {
        "cmd.exe"@
    }
}

/// The program that a new terminal starts where none is chosen.
pub fn default_program(present: &Vec<String>) -> (out: String)
    ensures
        out@ == preferred(texts(present@)),
{
    let shells = available(present);
    if shells.len() > 0 {
        assert(shells_of(shells@)[0].1 == shells@[0].program@);
        copy_text(shells[0].program.as_str())
    } else {
        assert(shells_of(shells@).len() == 0);
        copy_text("cmd.exe")
    }
}

// ---- the search path ------------------------------------------------------------

/// The folders of a search path from place `i` on, with `held` gathered for the
/// next one: `;` ends a folder, except between quotes, and quotes are left out.
pub open spec fn folders(s: Seq<char>, i: int, held: Seq<char>, quoted: bool) -> Seq<Seq<char>>
    decreases s.len() - i,
{
    if i >= s.len() {
        seq![held]
    } else if s[i] == '"' {
        folders(s, i + 1, held, !quoted)
    } else if s[i] == ';' && !quoted {
        seq![held] + folders(s, i + 1, Seq::empty(), quoted)
    } else {
        folders(s, i + 1, held.push(s[i]), quoted)
    }
}

/// Where a program may be: under each folder of the search path, in turn.
pub open spec fn places(path: Seq<char>, program: Seq<char>) -> Seq<Seq<char>> {
    let dirs = folders(path, 0, Seq::empty(), false);
    Seq::new(dirs.len(), |i: int| joined(dirs[i], program))
}

/// The folders of a search path.
pub fn split_paths(path: &str) -> (out: Vec<String>)
    ensures
        texts(out@) == folders(path@, 0, Seq::empty(), false),
{
    let v = to_chars(path);
    let mut out: Vec<String> = Vec::new();
    let mut held = String::new();
    let mut quoted = false;
    let mut i: usize = 0;
    let ghost goal = folders(path@, 0, Seq::empty(), false);
    assert(texts(out@) + goal =~= goal);
    assert(held@ =~= Seq::empty());
    while i < v.len()
        invariant
            i <= v@.len(),
            v@ == path@,
            texts(out@) + folders(path@, i as int, held@, quoted) == goal,
        decreases v@.len() - i,
    {
        let ghost before = texts(out@);
        let c = v[i];
        if c == '"' {
            quoted = !quoted;
        } else if c == ';' && !quoted {
            let ghost piece = held@;
            let ghost rest = folders(path@, i + 1, Seq::empty(), quoted);
            out.push(held);
            held = String::new();
            assert(held@ =~= Seq::empty());
            assert(texts(out@) =~= before.push(piece));
            assert(before + (seq![piece] + rest) =~= texts(out@) + rest);
        } else {
            held.push(c);
        }
        i += 1;
    }
    let ghost before = texts(out@);
    let ghost piece = held@;
    out.push(held);
    assert(texts(out@) =~= before + seq![piece]);
    out
}

/// Where a program may be, in the order to look.
pub fn places_for(path: &str, program: &str) -> (out: Vec<String>)
    ensures
        texts(out@) == places(path@, program@),
{
    let dirs = split_paths(path);
    let mut out: Vec<String> = Vec::new();
    let mut i: usize = 0;
    while i < dirs.len()
        invariant
            i <= dirs@.len(),
            out@.len() == i,
            forall|k: int|
                0 <= k < i ==> (#[trigger] out@[k])@ == joined(texts(dirs@)[k], program@),
        decreases dirs@.len() - i,
    {
        out.push(join(dirs[i].as_str(), program));
        i += 1;
    }
    assert(texts(out@) =~= places(path@, program@));
    out
}

/// The first place that holds the program. `files` are the places that are
/// files on disk.
pub fn which(path: Option<&str>, program: &str, files: &Vec<String>) -> (res: Option<String>)
    ensures
        path is None ==> res is None,
        path matches Some(p) ==> {
            let found = crate::persist::first_among(places(p@, program@), texts(files@), 0);
            &&& res is Some <==> found is Some
            &&& res matches Some(s) ==> found == Some(s@)
        },
{
    match path {
        None => None,
        Some(p) => {
            let spots = places_for(p, program);
            let ghost all = texts(spots@);
            let mut i: usize = 0;
            while i < spots.len()
                invariant
                    i <= spots@.len(),
                    path == Some(p),
                    all == texts(spots@),
                    all == places(p@, program@),
                    crate::persist::first_among(all, texts(files@), i as int)
                        == crate::persist::first_among(all, texts(files@), 0),
                decreases spots@.len() - i,
            {
                assert(all[i as int] == spots@[i as int]@);
                if is_listed(files, spots[i].as_str()) {
                    return Some(copy_text(spots[i].as_str()));
                }
                i += 1;
            }
            None
        },
    }
}

// ---- laws -----------------------------------------------------------------------

/// The dullest shell is the default only where nothing better is there.
pub proof fn law_the_dullest_comes_last(present: Seq<Seq<char>>)
    requires
        present.contains("pwsh.exe"@) || present.contains("powershell.exe"@) || present.contains(
            "wsl.exe"@,
        ),
    ensures
        preferred(present) != "cmd.exe"@,
{
    reveal_with_fuel(offered, 5);
    reveal_strlit("pwsh.exe");
    reveal_strlit("powershell.exe");
    reveal_strlit("wsl.exe");
    reveal_strlit("cmd.exe");
    assert("pwsh.exe"@[0] != "cmd.exe"@[0]);
    assert("powershell.exe"@[0] != "cmd.exe"@[0]);
    assert("wsl.exe"@[0] != "cmd.exe"@[0]);
}

/// A shell that is present is offered, and one that is not is not.
pub proof fn law_what_is_present_is_offered(present: Seq<Seq<char>>, k: int, n: int)
    requires
        0 <= k < n <= CANDIDATES,
    ensures
        present.contains(candidate_program(k)) ==> offered(present, n).contains(
            (candidate_name(k), candidate_program(k)),
        ),
    decreases n,
{
    let pair = (candidate_name(k), candidate_program(k));
    if present.contains(candidate_program(k)) {
        if n == k + 1 {
            assert(offered(present, n).last() == pair);
        } else {
            law_what_is_present_is_offered(present, k, n - 1);
            let before = offered(present, n - 1);
            let j = choose|j: int| 0 <= j < before.len() && before[j] == pair;
            assert(offered(present, n)[j] == pair);
        }
    }
}

/// The most capable shell that is there is the default: PowerShell 7 before
/// Windows PowerShell, that before WSL, and the command prompt where there is
/// nothing else.
pub proof fn law_the_best_shell_is_the_default(present: Seq<Seq<char>>)
    ensures
        present.contains("pwsh.exe"@) ==> preferred(present) == "pwsh.exe"@,
        !present.contains("pwsh.exe"@) && present.contains("powershell.exe"@) ==> preferred(present)
            == "powershell.exe"@,
        !present.contains("pwsh.exe"@) && !present.contains("powershell.exe"@) && present.contains(
            "wsl.exe"@,
        ) ==> preferred(present) == "wsl.exe"@,
        !present.contains("pwsh.exe"@) && !present.contains("powershell.exe"@)
            && !present.contains("wsl.exe"@) ==> preferred(present) == "cmd.exe"@,
{
    reveal_with_fuel(offered, 5);
}

/// Only shells that are present are offered, each under the name that goes with
/// its program.
pub proof fn law_only_what_is_present_is_offered(present: Seq<Seq<char>>, n: int, i: int)
    requires
        0 <= n,
        0 <= i < offered(present, n).len(),
    ensures
        present.contains(offered(present, n)[i].1),
        exists|k: int|
            0 <= k < n && offered(present, n)[i] == (
                #[trigger] candidate_name(k),
                candidate_program(k),
            ),
    decreases n,
{
    if n > 0 {
        let before = offered(present, n - 1);
        if i < before.len() {
            law_only_what_is_present_is_offered(present, n - 1, i);
            let k = choose|k: int|
                0 <= k < n - 1 && before[i] == (
                    #[trigger] candidate_name(k),
                    candidate_program(k),
                );
            assert(offered(present, n)[i] == before[i]);
            assert(offered(present, n)[i] == (candidate_name(k), candidate_program(k)));
        } else {
            assert(offered(present, n)[i] == (candidate_name(n - 1), candidate_program(n - 1)));
        }
    }
}

proof fn lemma_folder_gathers(s: Seq<char>, i: int, held: Seq<char>, m: int, quoted: bool)
    requires
        0 <= i <= m <= s.len(),
        forall|k: int| i <= k < m ==> (#[trigger] s[k]) != '"' && (quoted || s[k] != ';'),
    ensures
        folders(s, i, held, quoted) == folders(s, m, held + s.subrange(i, m), quoted),
    decreases m - i,
{
    if i < m {
        lemma_folder_gathers(s, i + 1, held.push(s[i]), m, quoted);
        assert(held.push(s[i]) + s.subrange(i + 1, m) =~= held + s.subrange(i, m));
    } else {
        assert(held + s.subrange(i, m) =~= held);
    }
}

proof fn lemma_folders_shift(s: Seq<char>, k: int, i: int, held: Seq<char>, quoted: bool)
    requires
        0 <= k <= s.len(),
        0 <= i <= s.len() - k,
    ensures
        folders(s, i + k, held, quoted) == folders(s.skip(k), i, held, quoted),
    decreases s.len() - k - i,
{
    if i + k < s.len() {
        assert(s.skip(k)[i] == s[i + k]);
        lemma_folders_shift(s, k, i + 1, held, !quoted);
        lemma_folders_shift(s, k, i + 1, Seq::empty(), quoted);
        lemma_folders_shift(s, k, i + 1, held.push(s[i + k]), quoted);
    }
}

/// A search path is its folders with `;` between them. Quotes around a folder let
/// it hold a `;`, and are no part of it.
#[verifier::rlimit(40)]
pub proof fn law_search_paths_are_split(a: Seq<char>, rest: Seq<char>)
    requires
        !a.contains('"'),
    ensures
        !a.contains(';') ==> folders(a, 0, Seq::empty(), false) == seq![a],
        !a.contains(';') ==> folders(a + seq![';'] + rest, 0, Seq::empty(), false) == seq![a]
            + folders(rest, 0, Seq::empty(), false),
        folders(seq!['"'] + a + seq!['"', ';'] + rest, 0, Seq::empty(), false) == seq![a] + folders(
            rest,
            0,
            Seq::empty(),
            false,
        ),
{
    let none = Seq::<char>::empty();
    let n = a.len() as int;
    if !a.contains(';') {
        assert forall|k: int| 0 <= k < n implies (#[trigger] a[k]) != '"' && a[k] != ';' by {
            assert(a.contains(a[k]));
        }
        lemma_folder_gathers(a, 0, none, n, false);
        assert(none + a.subrange(0, n) =~= a);
        let s = a + seq![';'] + rest;
        assert forall|k: int| 0 <= k < n implies (#[trigger] s[k]) != '"' && s[k] != ';' by {
            assert(s[k] == a[k]);
        }
        lemma_folder_gathers(s, 0, none, n, false);
        assert(none + s.subrange(0, n) =~= a);
        assert(s[n] == ';');
        assert(s.skip(n + 1) =~= rest);
        lemma_folders_shift(s, n + 1, 0, none, false);
    }
    let s = seq!['"'] + a + seq!['"', ';'] + rest;
    assert(s[0] == '"');
    assert forall|k: int| 1 <= k < n + 1 implies (#[trigger] s[k]) != '"' by {
        assert(s[k] == a[k - 1]);
        assert(a.contains(a[k - 1]));
    }
    lemma_folder_gathers(s, 1, none, n + 1, true);
    assert(none + s.subrange(1, n + 1) =~= a);
    assert(s[n + 1] == '"');
    assert(s[n + 2] == ';');
    assert(s.skip(n + 3) =~= rest);
    lemma_folders_shift(s, n + 3, 0, none, false);
    assert(folders(s, 0, none, false) == folders(s, 1, none, true));
    assert(folders(s, n + 1, a, true) == folders(s, n + 2, a, false));
}

/// A program is looked for in every folder of the search path, in their order.
pub proof fn law_programs_are_looked_for_in_turn(
    a: Seq<char>,
    rest: Seq<char>,
    program: Seq<char>,
    i: int,
)
    requires
        !a.contains('"'),
        !a.contains(';'),
        0 <= i < places(rest, program).len(),
    ensures
        places(a + seq![';'] + rest, program).len() == places(rest, program).len() + 1,
        places(a + seq![';'] + rest, program)[0] == joined(a, program),
        places(a + seq![';'] + rest, program)[i + 1] == places(rest, program)[i],
{
    law_search_paths_are_split(a, rest);
}

/// The shells are offered in the order of the list, best first, those that are
/// present and no others, each under its own name.
pub proof fn law_shells_are_offered_in_order(present: Seq<Seq<char>>)
    ensures
        offered(present, 4) == seq![
            ("PowerShell 7"@, "pwsh.exe"@),
            ("Windows PowerShell"@, "powershell.exe"@),
            ("WSL"@, "wsl.exe"@),
            ("Command Prompt"@, "cmd.exe"@),
        ].filter(|s: (Seq<char>, Seq<char>)| present.contains(s.1)),
{
    let all = seq![
        ("PowerShell 7"@, "pwsh.exe"@),
        ("Windows PowerShell"@, "powershell.exe"@),
        ("WSL"@, "wsl.exe"@),
        ("Command Prompt"@, "cmd.exe"@),
    ];
    lemma_offered_filtered(present, all, 4);
    assert(all.take(4) =~= all);
}

proof fn lemma_offered_filtered(
    present: Seq<Seq<char>>,
    all: Seq<(Seq<char>, Seq<char>)>,
    n: int,
)
    requires
        0 <= n <= 4,
        all.len() == 4,
        forall|k: int| 0 <= k < 4 ==> (#[trigger] all[k]) == (candidate_name(k), candidate_program(k)),
    ensures
        offered(present, n) == all.take(n).filter(
            |s: (Seq<char>, Seq<char>)| present.contains(s.1),
        ),
    decreases n,
{
    reveal(Seq::filter);
    if n > 0 {
        lemma_offered_filtered(present, all, n - 1);
        assert(all.take(n).drop_last() =~= all.take(n - 1));
        assert(all.take(n).last() == all[n - 1]);
    }
}

} // verus!
