use vstd::prelude::*;

use crate::text::{ascii_lower_seq, ascii_lowercase_chars, chars_equal_str};

verus! {

/// The shell a terminal runs, and the names that were looked for to choose it.
#[derive(Clone, Debug, PartialEq, Eq)]
pub struct ResolvedShell {
    pub program: String,
    pub args: Vec<String>,
    pub attempted: Vec<String>,
    pub used_last_resort: bool,
}

pub struct ShellView {
    pub program: Seq<char>,
    pub args: Seq<Seq<char>>,
    pub attempted: Seq<Seq<char>>,
    pub used_last_resort: bool,
}

pub open spec fn strings_view(v: Seq<String>) -> Seq<Seq<char>> {
    v.map_values(|s: String| s@)
}

impl View for ResolvedShell {
    type V = ShellView;

    open spec fn view(&self) -> ShellView {
        ShellView {
            program: self.program@,
            args: strings_view(self.args@),
            attempted: strings_view(self.attempted@),
            used_last_resort: self.used_last_resort,
        }
    }
}

/// The shells tried, most preferred first.
pub open spec fn shell_order() -> Seq<Seq<char>> {
    seq!["pwsh"@, "powershell.exe"@, "cmd.exe"@]
}

/// The canonical name of a shell spelled `s` (any ASCII case, with or without `.exe`).
pub open spec fn normalize_shell(s: Seq<char>) -> Option<Seq<char>> {
    let l = ascii_lower_seq(s);
    if l == "pwsh"@ || l == "pwsh.exe"@ {
        Some("pwsh"@)
    } else if l == "powershell"@ || l == "powershell.exe"@ {
        Some("powershell.exe"@)
    } else if l == "cmd"@ || l == "cmd.exe"@ {
        Some("cmd.exe"@)
    } else {
        None
    }
}

/// Chooses the shell for new terminals among those known to be installed.
#[derive(Clone, Debug)]
pub struct ShellResolver {
    available: Vec<String>,
}

impl View for ShellResolver {
    type V = Set<Seq<char>>;

    /// The canonical names of the installed shells.
    closed spec fn view(&self) -> Set<Seq<char>> {
        Set::new(|n: Seq<char>| exists|i: int| 0 <= i < self.available.len() && self.available@[i]@ == n)
    }
}

/// What `resolve` picks for a set of installed shells.
pub open spec fn resolve_spec(available: Set<Seq<char>>) -> ShellView {
    let (program, last_resort) = if available.contains("pwsh"@) {
        ("pwsh"@, false)
    } else if available.contains("powershell.exe"@) {
        ("powershell.exe"@, false)
    } else if available.contains("cmd.exe"@) {
        ("cmd.exe"@, false)
    } else {
        ("cmd.exe"@, true)
    };
    ShellView { program, args: Seq::empty(), attempted: shell_order(), used_last_resort: last_resort }
}

fn normalize_available_shell(shell: &str) -> (r: Option<String>)
    ensures
        match normalize_shell(shell@) {
            Some(n) => r matches Some(s) && s@ == n,
            None => r is None,
        },
{
    let l = ascii_lowercase_chars(shell);
    if chars_equal_str(&l, "pwsh") || chars_equal_str(&l, "pwsh.exe") {
        Some(String::from_str("pwsh"))
    } else if chars_equal_str(&l, "powershell") || chars_equal_str(&l, "powershell.exe") {
        Some(String::from_str("powershell.exe"))
    } else if chars_equal_str(&l, "cmd") || chars_equal_str(&l, "cmd.exe") {
        Some(String::from_str("cmd.exe"))
    } else {
        None
    }
}

pub open spec fn names_hold(names: Seq<String>, n: Seq<char>) -> bool {
    exists|k: int| 0 <= k < names.len() && (#[trigger] names[k])@ == n
}

/// One of the first `i` spellings names shell `n`.
pub open spec fn spelled_among(available: Seq<&str>, i: int, n: Seq<char>) -> bool {
    exists|j: int| 0 <= j < i && normalize_shell((#[trigger] available[j])@) == Some(n)
}

impl ShellResolver {
    /// A resolver that knows the shells named in `available`; names it does not know are ignored.
    pub fn new(available: &[&str]) -> (r: Self)
        ensures
            forall|n: Seq<char>| #[trigger] r@.contains(n) <==> spelled_among(available@, available@.len() as int, n),
    {
        let mut names: Vec<String> = Vec::new();
        let mut i: usize = 0;
        while i < available.len()
            invariant
                i <= available@.len(),
                forall|n: Seq<char>| #[trigger] names_hold(names@, n) <==> spelled_among(available@, i as int, n),
            decreases available@.len() - i,
        {
            let ghost before = names@;
            match normalize_available_shell(available[i]) {
                Some(name) => {
                    names.push(name);
                    assert forall|n: Seq<char>| #[trigger] names_hold(names@, n) <==> spelled_among(available@, i + 1, n) by {
                        if names_hold(names@, n) {
                            let k = choose|k: int| 0 <= k < names.len() && (#[trigger] names@[k])@ == n;
                            if k < before.len() {
                                assert(before[k] == names@[k]);
                                assert(names_hold(before, n));
                            } else {
                                assert(normalize_shell(available@[i as int]@) == Some(n));
                            }
                        }
                        if spelled_among(available@, i + 1, n) {
                            let j = choose|j: int| 0 <= j < i + 1 && normalize_shell((#[trigger] available@[j])@) == Some(n);
                            if j < i {
                                assert(spelled_among(available@, i as int, n));
                                assert(names_hold(before, n));
                                let k = choose|k: int| 0 <= k < before.len() && (#[trigger] before[k])@ == n;
                                assert(names@[k] == before[k]);
                            } else {
                                assert(names@[before.len() as int]@ == n);
                            }
                        }
                    }
                },
                None => {
                    assert forall|n: Seq<char>| #[trigger] names_hold(names@, n) <==> spelled_among(available@, i + 1, n) by {
                        if spelled_among(available@, i + 1, n) {
                            let j = choose|j: int| 0 <= j < i + 1 && normalize_shell((#[trigger] available@[j])@) == Some(n);
                            assert(j < i);
                            assert(spelled_among(available@, i as int, n));
                        }
                    }
                },
            }
            i = i + 1;
        }
        let r = ShellResolver { available: names };
        assert forall|n: Seq<char>| #[trigger] r@.contains(n) <==> spelled_among(available@, available@.len() as int, n) by {
            if r@.contains(n) {
                let k = choose|k: int| 0 <= k < r.available.len() && r.available@[k]@ == n;
                assert(names_hold(names@, n));
            }
            if names_hold(names@, n) {
                let k = choose|k: int| 0 <= k < names.len() && (#[trigger] names@[k])@ == n;
                assert(r.available@[k]@ == n);
            }
        }
        r
    }

    fn has(&self, name: &str) -> (r: bool)
        ensures
            r == self@.contains(name@),
    {
        let mut i: usize = 0;
        while i < self.available.len()
            invariant
                i <= self.available.len(),
                forall|k: int| 0 <= k < i ==> self.available@[k]@ != name@,
            decreases self.available.len() - i,
        {
            let c = crate::text::str_chars(self.available[i].as_str());
            if chars_equal_str(&c, name) {
                assert(self.available@[i as int]@ == name@);
                return true;
            }
            i = i + 1;
        }
        false
    }

    /// The most preferred installed shell, or `cmd.exe` as a last resort.
    pub fn resolve(&self) -> (r: ResolvedShell)
        ensures
            r@ == resolve_spec(self@),
    {
        let mut attempted: Vec<String> = Vec::new();
        attempted.push(String::from_str("pwsh"));
        attempted.push(String::from_str("powershell.exe"));
        attempted.push(String::from_str("cmd.exe"));
        assert(strings_view(attempted@) =~= shell_order());
        let args: Vec<String> = Vec::new();
        assert(strings_view(args@) =~= Seq::<Seq<char>>::empty());
        if self.has("pwsh") {
            ResolvedShell { program: String::from_str("pwsh"), args, attempted, used_last_resort: false }
        } else if self.has("powershell.exe") {
            ResolvedShell { program: String::from_str("powershell.exe"), args, attempted, used_last_resort: false }
        } else if self.has("cmd.exe") {
            ResolvedShell { program: String::from_str("cmd.exe"), args, attempted, used_last_resort: false }
        } else {
            ResolvedShell { program: String::from_str("cmd.exe"), args, attempted, used_last_resort: true }
        }
    }
}

} // verus!
