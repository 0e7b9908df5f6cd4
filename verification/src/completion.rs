//! Which shell a completion script is generated for.

use vstd::prelude::*;
use crate::preview::strings_view;
use crate::text::{char_from_ascii, chars_eq_str, string_from_chars, to_chars};

verus! {

/// The shells completion scripts can be generated for.
#[derive(Debug, Clone, Copy, PartialEq, Eq, Structural)]
pub enum Shell {
    Bash,
    Zsh,
    Fish,
    PowerShell,
}

/// `char::to_ascii_lowercase`.
pub open spec fn ascii_lower(c: char) -> char {
    if 'A' <= c && c <= 'Z' {
        ((c as u32) + 32) as char
    } else {
        c
    }
}

/// `str::to_ascii_lowercase`.
pub open spec fn lower_all(s: Seq<char>) -> Seq<char> {
    s.map_values(|c: char| ascii_lower(c))
}

/// The shell a name stands for, compared without ASCII case.
pub open spec fn shell_spec(name: Seq<char>) -> Option<Shell> {
    let l = lower_all(name);
    if l == "bash"@ {
        Some(Shell::Bash)
    } else if l == "zsh"@ {
        Some(Shell::Zsh)
    } else if l == "fish"@ {
        Some(Shell::Fish)
    } else if l == "powershell"@ || l == "pwsh"@ {
        Some(Shell::PowerShell)
    } else {
        None
    }
}

fn ascii_lower_exec(c: char) -> (r: char)
    ensures
        r == ascii_lower(c),
{
    if 'A' <= c && c <= 'Z' {
        char_from_ascii((c as u32) + 32)
    } else {
        c
    }
}

fn lowercase(s: &str) -> (r: Vec<char>)
    ensures
        r@ == lower_all(s@),
{
    let v = to_chars(s);
    let mut out: Vec<char> = Vec::new();
    let n = v.len();
    for i in 0..n
        invariant
            n == v@.len(),
            v@ == s@,
            out@ == lower_all(v@.take(i as int)),
    {
        out.push(ascii_lower_exec(v[i]));
        proof {
            assert(lower_all(v@.take(i + 1)) =~= lower_all(v@.take(i as int)).push(ascii_lower(v@[i as int])));
        }
    }
    proof {
        assert(v@.take(n as int) =~= v@);
    }
    out
}

/// The shell for a completion request, or the two error lines to print.
pub fn completion_shell(name: &str) -> (r: Result<Shell, Vec<String>>)
    ensures
        match shell_spec(name@) {
            Some(s) => r == Ok::<Shell, Vec<String>>(s),
            None => r is Err && strings_view(r->Err_0@) == seq![
                "jgrep: unsupported shell: "@ + lower_all(name@),
                "Supported shells: bash, zsh, fish, powershell"@,
            ],
        },
{
    let l = lowercase(name);
    if chars_eq_str(&l, "bash") {
        Ok(Shell::Bash)
    } else if chars_eq_str(&l, "zsh") {
        Ok(Shell::Zsh)
    } else if chars_eq_str(&l, "fish") {
        Ok(Shell::Fish)
    } else if chars_eq_str(&l, "powershell") || chars_eq_str(&l, "pwsh") {
        Ok(Shell::PowerShell)
    } else {
        let mut first = "jgrep: unsupported shell: ".to_owned();
        let lower = string_from_chars(&l);
        first.append(lower.as_str());
        let mut lines: Vec<String> = Vec::new();
        lines.push(first);
        lines.push("Supported shells: bash, zsh, fish, powershell".to_owned());
        proof {
            assert(strings_view(lines@) =~= seq![
                "jgrep: unsupported shell: "@ + lower_all(name@),
                "Supported shells: bash, zsh, fish, powershell"@,
            ]);
        }
        Err(lines)
    }
}

} // verus!
