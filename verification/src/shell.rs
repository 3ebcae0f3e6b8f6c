//! Quoting values for POSIX sh, PowerShell and fish, and the init scripts
//! that export variables and install the `lum` wrapper in each shell.
use vstd::prelude::*;
use vstd::string::*;

use crate::text::str_eq;

verus! {

/// The shells that `lum env` writes code for.
#[derive(Debug, Clone, Copy, PartialEq, Eq, Structural)]
pub enum EnvShell {
    Posix,
    Powershell,
    Fish,
}

impl EnvShell {
    /// The shell used when none is given: PowerShell on Windows, POSIX sh
    /// elsewhere.
    pub fn for_platform(windows: bool) -> (r: EnvShell)
        ensures
            r == (if windows {
                EnvShell::Powershell
            } else {
                EnvShell::Posix
            }),
    {
        if windows {
            EnvShell::Powershell
        } else {
            EnvShell::Posix
        }
    }
}

/// What one character of a value becomes inside the single quotes of `shell`:
/// POSIX sh closes the quotes around an escaped quote (`'\''`), PowerShell
/// doubles a quote (`''`), and fish escapes a quote or a backslash with a
/// backslash.
pub open spec fn escape_char(shell: EnvShell, c: char) -> Seq<char> {
    match shell {
        EnvShell::Posix => if c == '\'' {
            seq!['\'', '\\', '\'', '\'']
        } else {
            seq![c]
        },
        EnvShell::Powershell => if c == '\'' {
            seq!['\'', '\'']
        } else {
            seq![c]
        },
        EnvShell::Fish => if c == '\\' {
            seq!['\\', '\\']
        } else if c == '\'' {
            seq!['\\', '\'']
        } else {
            seq![c]
        },
    }
}

/// Every character of `s` escaped for `shell`, in order.
pub open spec fn escaped(shell: EnvShell, s: Seq<char>) -> Seq<char>
    decreases s.len(),
{
    if s.len() == 0 {
        Seq::empty()
    } else {
        escaped(shell, s.drop_last()) + escape_char(shell, s.last())
    }
}

/// `s` as one single-quoted word of `shell`.
pub open spec fn quoted(shell: EnvShell, s: Seq<char>) -> Seq<char> {
    seq!['\''] + escaped(shell, s) + seq!['\'']
}

/// A character that opens or closes a single-quoted string in `shell`:
/// PowerShell also takes the typographic single quotes U+2018 to U+201B.
pub open spec fn single_quote_char(shell: EnvShell, c: char) -> bool {
    c == '\'' || (shell == EnvShell::Powershell && '\u{2018}' <= c && c <= '\u{201B}')
}

/// `v` holds no quote character of `shell` other than `'`, which is the only
/// one that quoting escapes.
pub open spec fn only_ascii_quotes(shell: EnvShell, v: Seq<char>) -> bool {
    forall|i: int| 0 <= i < v.len() ==> !(#[trigger] single_quote_char(shell, v[i]) && v[i] != '\'')
}

pub open spec fn prepend(prefix: Seq<char>, rest: Option<Seq<char>>) -> Option<Seq<char>> {
    match rest {
        Some(r) => Some(prefix + r),
        None => None,
    }
}

/// How `shell` reads a word built only from single-quoted parts (and, for
/// POSIX sh, backslash-escaped characters between them): `None` when `s` is no
/// such word, else the characters it stands for. `quoted` tells whether
/// reading starts inside single quotes.
///
/// - POSIX sh: inside quotes every character is literal up to the next `'`;
///   outside, `\c` stands for `c`.
/// - PowerShell: a quote character is `'` or one of U+2018 to U+201B; inside
///   quotes two quote characters in a row stand for the second one.
/// - fish: inside quotes `\\` and `\'` stand for `\` and `'`; any other
///   backslash is literal.
pub open spec fn read_word(shell: EnvShell, s: Seq<char>, quoted: bool) -> Option<Seq<char>>
    decreases s.len(),
{
    if s.len() == 0 {
        if quoted {
            None
        } else {
            Some(Seq::empty())
        }
    } else if !quoted {
        if single_quote_char(shell, s[0]) {
            read_word(shell, s.drop_first(), true)
        } else if shell == EnvShell::Posix && s[0] == '\\' && s.len() >= 2 {
            prepend(seq![s[1]], read_word(shell, s.skip(2), false))
        } else {
            None
        }
    } else {
        match shell {
            EnvShell::Posix => if s[0] == '\'' {
                read_word(shell, s.drop_first(), false)
            } else {
                prepend(seq![s[0]], read_word(shell, s.drop_first(), true))
            },
            EnvShell::Powershell => if single_quote_char(shell, s[0]) {
                if s.len() >= 2 && single_quote_char(shell, s[1]) {
                    prepend(seq![s[1]], read_word(shell, s.skip(2), true))
                } else {
                    read_word(shell, s.drop_first(), false)
                }
            } else {
                prepend(seq![s[0]], read_word(shell, s.drop_first(), true))
            },
            EnvShell::Fish => if s[0] == '\\' && s.len() >= 2 && (s[1] == '\\' || s[1] == '\'') {
                prepend(seq![s[1]], read_word(shell, s.skip(2), true))
            } else if s[0] == '\'' {
                read_word(shell, s.drop_first(), false)
            } else {
                prepend(seq![s[0]], read_word(shell, s.drop_first(), true))
            },
        }
    }
}

proof fn lemma_read_escaped_char(shell: EnvShell, c: char, t: Seq<char>)
    requires
        !(single_quote_char(shell, c) && c != '\''),
    ensures
        read_word(shell, escape_char(shell, c) + t, true) == prepend(
            seq![c],
            read_word(shell, t, true),
        ),
{
    let s = escape_char(shell, c) + t;
    match shell {
        EnvShell::Posix => {
            if c == '\'' {
                let s1 = s.drop_first();
                let s2: Seq<char> = seq!['\''] + t;
                assert(s1 =~= seq!['\\', '\'', '\''] + t);
                assert(s1.skip(2) =~= s2);
                assert(s2.drop_first() =~= t);
                assert(read_word(shell, s2, false) == read_word(shell, t, true));
                assert(read_word(shell, s1, false) == prepend(seq!['\''], read_word(shell, s2, false)));
                assert(read_word(shell, s, true) == read_word(shell, s1, false));
            } else {
                assert(s.drop_first() =~= t);
                assert(read_word(shell, s, true) == prepend(seq![c], read_word(shell, t, true)));
            }
        },
        EnvShell::Powershell => {
            if c == '\'' {
                assert(s.skip(2) =~= t);
            } else {
                assert(s.drop_first() =~= t);
            }
        },
        EnvShell::Fish => {
            if c == '\\' || c == '\'' {
                assert(s.skip(2) =~= t);
            } else {
                assert(s.drop_first() =~= t);
            }
        },
    }
}

proof fn lemma_read_escaped(shell: EnvShell, v: Seq<char>, t: Seq<char>)
    requires
        only_ascii_quotes(shell, v),
    ensures
        read_word(shell, escaped(shell, v) + t, true) == prepend(v, read_word(shell, t, true)),
    decreases v.len(),
{
    if v.len() == 0 {
        assert(escaped(shell, v) + t =~= t);
        match read_word(shell, t, true) {
            Some(r) => assert(v + r =~= r),
            None => {},
        }
    } else {
        let w = v.drop_last();
        let c = v.last();
        let tail = escape_char(shell, c) + t;
        assert(escaped(shell, v) + t =~= escaped(shell, w) + tail);
        assert(only_ascii_quotes(shell, w)) by {
            assert forall|i: int| 0 <= i < w.len() implies !(#[trigger] single_quote_char(shell, w[i])
                && w[i] != '\'') by {
                assert(w[i] == v[i]);
            }
        }
        assert(!(single_quote_char(shell, v[v.len() - 1]) && v[v.len() - 1] != '\''));
        lemma_read_escaped(shell, w, tail);
        lemma_read_escaped_char(shell, c, t);
        match read_word(shell, t, true) {
            Some(r) => assert(w + (seq![c] + r) =~= v + r),
            None => {},
        }
    }
}

/// A quoted value reads back as exactly that value, in each shell: whatever
/// characters it holds (quotes, backslashes, newlines), the shell sees it
/// verbatim as one word. For PowerShell this holds of values without the
/// typographic single quotes U+2018 to U+201B, which quoting leaves as they
/// are although PowerShell reads them as quotes.
pub proof fn lemma_quoted_reads_back(shell: EnvShell, v: Seq<char>)
    requires
        only_ascii_quotes(shell, v),
    ensures
        read_word(shell, quoted(shell, v), false) == Some(v),
{
    let q = quoted(shell, v);
    let close: Seq<char> = seq!['\''];
    assert(q.drop_first() =~= escaped(shell, v) + close);
    lemma_read_escaped(shell, v, close);
    assert(close.drop_first() =~= Seq::<char>::empty());
    assert(read_word(shell, Seq::<char>::empty(), false) == Some(Seq::<char>::empty()));
    assert(read_word(shell, close, true) == Some(Seq::<char>::empty()));
    assert(v + Seq::<char>::empty() =~= v);
}

fn quote(shell: EnvShell, value: &str) -> (r: String)
    ensures
        r@ == quoted(shell, value@),
{
    proof {
        reveal_strlit("'");
    }
    let n = value.unicode_len();
    let mut out = String::from_str("'");
    let mut i: usize = 0;
    while i < n
        invariant
            n == value@.len(),
            i <= n,
            out@ == seq!['\''] + escaped(shell, value@.take(i as int)),
        decreases n - i,
    {
        let c = value.get_char(i);
        let ghost before = out@;
        if c == '\'' && shell == EnvShell::Posix {
            out.append("'\\''");
            proof {
                reveal_strlit("'\\''");
            }
        } else if c == '\'' && shell == EnvShell::Powershell {
            out.append("''");
            proof {
                reveal_strlit("''");
            }
        } else if c == '\'' && shell == EnvShell::Fish {
            out.append("\\'");
            proof {
                reveal_strlit("\\'");
            }
        } else if c == '\\' && shell == EnvShell::Fish {
            out.append("\\\\");
            proof {
                reveal_strlit("\\\\");
            }
        } else {
            out.append(value.substring_char(i, i + 1));
        }
        assert(out@ =~= before + escape_char(shell, c));
        proof {
            assert(value@.take(i + 1).drop_last() =~= value@.take(i as int));
            assert(value@.take(i + 1).last() == c);
        }
        i = i + 1;
    }
    assert(value@.take(n as int) =~= value@);
    out.append("'");
    out
}

/// `value` in POSIX sh single quotes, each `'` written as `'\''`.
pub fn shell_quote(value: &str) -> (r: String)
    ensures
        r@ == quoted(EnvShell::Posix, value@),
{
    quote(EnvShell::Posix, value)
}

/// `value` in PowerShell single quotes, each `'` doubled.
pub fn powershell_quote(value: &str) -> (r: String)
    ensures
        r@ == quoted(EnvShell::Powershell, value@),
{
    quote(EnvShell::Powershell, value)
}

/// `value` in fish single quotes, each `\` and `'` escaped with a backslash.
pub fn fish_quote(value: &str) -> (r: String)
    ensures
        r@ == quoted(EnvShell::Fish, value@),
{
    quote(EnvShell::Fish, value)
}

/// POSIX sh: start of the guard that adds the binary's directory to `PATH`.
pub const POSIX_PATH_HEAD: &'static str = "case \":$PATH:\" in\n  *\":";

/// POSIX sh: between the raw directory and the quoted one.
pub const POSIX_PATH_MID: &'static str = ":\"*) ;;\n  *) export PATH=";

/// POSIX sh: the end of the `PATH` guard, the `lum` wrapper function and the
/// completion hook.
pub const POSIX_TAIL: &'static str = r#":$PATH ;;
esac
lum() {
  if [ "$1" = "env" ]; then
    case "$2" in
      set|unset)
        eval "$(command lum "$@")"
        ;;
      *)
        command lum "$@"
        ;;
    esac
  else
    command lum "$@"
  fi
}

# --- lum shell completion ---
if [ -n "$BASH_VERSION" ]; then
  eval "$(command lum __completions bash)"
elif [ -n "$ZSH_VERSION" ]; then
  if ! command -v compdef >/dev/null 2>&1; then
    autoload -Uz compinit && compinit -i
  fi
  eval "$(command lum __completions zsh)"
fi
# --- end lum shell completion ---
"#;

/// PowerShell: start of the guard that adds the binary's directory to `PATH`.
pub const POWERSHELL_PATH_HEAD: &'static str = "if (($env:PATH -split ';') -notcontains ";

/// PowerShell: between the two quoted directories.
pub const POWERSHELL_PATH_MID: &'static str = ") {\n  $env:PATH = ";

/// PowerShell: the end of the `PATH` guard, the `lum` wrapper function and the
/// completion hook.
pub const POWERSHELL_TAIL: &'static str = r#" + ';' + $env:PATH
}
function global:lum {
  if (($args.Count -ge 2) -and ($args[0] -eq 'env') -and ($args[1] -eq 'set')) {
    Invoke-Expression (& lum.exe env set --shell powershell @($args | Select-Object -Skip 2))
  } elseif (($args.Count -ge 2) -and ($args[0] -eq 'env') -and ($args[1] -eq 'unset')) {
    Invoke-Expression (& lum.exe env unset --shell powershell @($args | Select-Object -Skip 2))
  } else {
    & lum.exe @args
  }
}

# --- lum shell completion ---
Invoke-Expression (& lum.exe __completions powershell | Out-String)
# --- end lum shell completion ---
"#;

/// fish: start of the guard that adds the binary's directory to `PATH`.
pub const FISH_PATH_HEAD: &'static str = "if not contains -- ";

/// fish: between the two quoted directories.
pub const FISH_PATH_MID: &'static str = " $PATH\n  set -gx PATH ";

/// fish: the end of the `PATH` guard, the `lum` wrapper function and the
/// completion hook. For `lum env set|unset` the wrapper prints help (`--help`,
/// `-h`) and code for another shell (the last `--shell` before `--` decides)
/// instead of running it, applies fish code by piping it whole into `source`
/// (so multi-line values are kept verbatim), and returns lum's exit status.
pub const FISH_TAIL: &'static str = r#" $PATH
end
function lum --description 'lum wrapper (auto eval env set/unset)'
  if test (count $argv) -ge 2; and test "$argv[1]" = env; and contains -- "$argv[2]" set unset
    # Find the shell asked for (the last --shell before --) and any help flag.
    set -l shell
    set -l i 3
    while test $i -le (count $argv)
      set -l arg $argv[$i]
      if test "$arg" = --
        break
      else if contains -- "$arg" --help -h
        command lum $argv
        return $status
      else if test "$arg" = --shell
        set i (math $i + 1)
        set shell $argv[$i]
      else if string match -q -- '--shell=*' "$arg"
        set shell (string replace -- '--shell=' '' "$arg")
      end
      set i (math $i + 1)
    end
    # Only fish code is applied, read whole so multi-line values stay intact;
    # code for another shell is printed.
    if test -z "$shell"
      command lum $argv[1..2] --shell fish $argv[3..-1] | source
      return $pipestatus[1]
    else if test "$shell" = fish
      command lum $argv | source
      return $pipestatus[1]
    else
      command lum $argv
      return $status
    end
  else
    command lum $argv
  end
end

# --- lum shell completion ---
command lum __completions fish | source
# --- end lum shell completion ---
"#;

/// The line that sets variable `name` to `value` in `shell`.
pub open spec fn export_line(shell: EnvShell, name: Seq<char>, value: Seq<char>) -> Seq<char> {
    match shell {
        EnvShell::Posix => "export "@ + name + "="@ + quoted(shell, value) + "\n"@,
        EnvShell::Powershell => "$env:"@ + name + " = "@ + quoted(shell, value) + "\n"@,
        EnvShell::Fish => "set -gx "@ + name + " "@ + quoted(shell, value) + "\n"@,
    }
}

/// One line per `(name, value)` pair, in order.
pub open spec fn export_lines(shell: EnvShell, exports: Seq<(Seq<char>, Seq<char>)>) -> Seq<char>
    decreases exports.len(),
{
    if exports.len() == 0 {
        Seq::empty()
    } else {
        export_lines(shell, exports.drop_last()) + export_line(
            shell,
            exports.last().0,
            exports.last().1,
        )
    }
}

/// The `PATH` guard for directory `bin`, the `lum` wrapper and the
/// completion hook. POSIX sh matches the raw directory inside `:$PATH:` and
/// prepends it quoted; PowerShell and fish use the quoted directory for both.
pub open spec fn path_and_wrapper(shell: EnvShell, bin: Seq<char>) -> Seq<char> {
    match shell {
        EnvShell::Posix => POSIX_PATH_HEAD@ + bin + POSIX_PATH_MID@ + quoted(shell, bin)
            + POSIX_TAIL@,
        EnvShell::Powershell => POWERSHELL_PATH_HEAD@ + quoted(shell, bin) + POWERSHELL_PATH_MID@
            + quoted(shell, bin) + POWERSHELL_TAIL@,
        EnvShell::Fish => FISH_PATH_HEAD@ + quoted(shell, bin) + FISH_PATH_MID@ + quoted(shell, bin)
            + FISH_TAIL@,
    }
}

/// The whole init script of `shell`.
pub open spec fn init_text(shell: EnvShell, exports: Seq<(Seq<char>, Seq<char>)>, bin: Seq<char>) -> Seq<char> {
    export_lines(shell, exports) + path_and_wrapper(shell, bin)
}

fn append_export_line(out: &mut String, shell: EnvShell, name: &str, value: &str)
    ensures
        final(out)@ == old(out)@ + export_line(shell, name@, value@),
{
    let q = quote(shell, value);
    match shell {
        EnvShell::Posix => {
            out.append("export ");
            out.append(name);
            out.append("=");
        },
        EnvShell::Powershell => {
            out.append("$env:");
            out.append(name);
            out.append(" = ");
        },
        EnvShell::Fish => {
            out.append("set -gx ");
            out.append(name);
            out.append(" ");
        },
    }
    out.append(q.as_str());
    out.append("\n");
}

/// The init script that `lum env init` prints for `shell`: one export line per
/// `(variable, value)` pair in `exports`, in order, then the guard that puts
/// directory `bin` on `PATH`, the `lum` wrapper function and the completion
/// hook.
pub fn init_script(shell: EnvShell, exports: &Vec<(String, String)>, bin: &str) -> (r: String)
    ensures
        r@ == init_text(shell, exports.deep_view(), bin@),
{
    let ghost e = exports.deep_view();
    let mut out = String::new();
    let mut i: usize = 0;
    while i < exports.len()
        invariant
            e == exports.deep_view(),
            i <= exports.len(),
            out@ == export_lines(shell, e.take(i as int)),
        decreases exports.len() - i,
    {
        append_export_line(&mut out, shell, exports[i].0.as_str(), exports[i].1.as_str());
        proof {
            assert(e.take(i + 1).drop_last() =~= e.take(i as int));
            assert(e.take(i + 1).last() == (exports[i as int].0@, exports[i as int].1@));
        }
        i = i + 1;
    }
    assert(e.take(exports.len() as int) =~= e);
    let quoted_bin = quote(shell, bin);
    match shell {
        EnvShell::Posix => {
            out.append(POSIX_PATH_HEAD);
            out.append(bin);
            out.append(POSIX_PATH_MID);
            out.append(quoted_bin.as_str());
            out.append(POSIX_TAIL);
        },
        EnvShell::Powershell => {
            out.append(POWERSHELL_PATH_HEAD);
            out.append(quoted_bin.as_str());
            out.append(POWERSHELL_PATH_MID);
            out.append(quoted_bin.as_str());
            out.append(POWERSHELL_TAIL);
        },
        EnvShell::Fish => {
            out.append(FISH_PATH_HEAD);
            out.append(quoted_bin.as_str());
            out.append(FISH_PATH_MID);
            out.append(quoted_bin.as_str());
            out.append(FISH_TAIL);
        },
    }
    out
}

/// The variable that `alias` stands for: that of the first entry of
/// `aliases` with this alias, if any.
pub open spec fn alias_variable(aliases: Seq<(Seq<char>, Seq<char>)>, alias: Seq<char>) -> Option<
    Seq<char>,
>
    decreases aliases.len(),
{
    if aliases.len() == 0 {
        None
    } else if aliases[0].0 == alias {
        Some(aliases[0].1)
    } else {
        alias_variable(aliases.drop_first(), alias)
    }
}

/// One `(variable, value)` pair per `(alias, value)` entry of `state` whose
/// alias stands for a variable, in the order of `state`.
pub open spec fn state_exports(
    state: Seq<(Seq<char>, Seq<char>)>,
    aliases: Seq<(Seq<char>, Seq<char>)>,
) -> Seq<(Seq<char>, Seq<char>)>
    decreases state.len(),
{
    if state.len() == 0 {
        Seq::empty()
    } else {
        let earlier = state_exports(state.drop_last(), aliases);
        match alias_variable(aliases, state.last().0) {
            Some(variable) => earlier.push((variable, state.last().1)),
            None => earlier,
        }
    }
}

fn variable_for_alias(aliases: &Vec<(String, String)>, alias: &str) -> (r: Option<String>)
    ensures
        r.deep_view() == alias_variable(aliases.deep_view(), alias@),
{
    let ghost a = aliases.deep_view();
    assert(a.skip(0) =~= a);
    let mut i: usize = 0;
    while i < aliases.len()
        invariant
            a == aliases.deep_view(),
            i <= aliases.len(),
            alias_variable(a, alias@) == alias_variable(a.skip(i as int), alias@),
        decreases aliases.len() - i,
    {
        assert(a.skip(i as int)[0] == (aliases[i as int].0@, aliases[i as int].1@));
        if str_eq(aliases[i].0.as_str(), alias) {
            return Some(aliases[i].1.clone());
        }
        assert(a.skip(i as int).drop_first() =~= a.skip(i + 1));
        i = i + 1;
    }
    assert(a.skip(i as int) =~= Seq::<(Seq<char>, Seq<char>)>::empty());
    None
}

/// The variables an init script sets: for each `(alias, value)` entry of
/// `state`, in order, the variable its alias stands for (entries whose alias
/// stands for none are left out), then the `forced` pairs in order.
pub fn init_exports(
    state: &Vec<(String, String)>,
    aliases: &Vec<(String, String)>,
    forced: &Vec<(String, String)>,
) -> (r: Vec<(String, String)>)
    ensures
        r.deep_view() == state_exports(state.deep_view(), aliases.deep_view())
            + forced.deep_view(),
{
    let ghost st = state.deep_view();
    let ghost al = aliases.deep_view();
    let mut out: Vec<(String, String)> = Vec::new();
    let mut i: usize = 0;
    while i < state.len()
        invariant
            st == state.deep_view(),
            al == aliases.deep_view(),
            i <= state.len(),
            out.deep_view() == state_exports(st.take(i as int), al),
        decreases state.len() - i,
    {
        proof {
            assert(st.take(i + 1).drop_last() =~= st.take(i as int));
            assert(st.take(i + 1).last() == (state[i as int].0@, state[i as int].1@));
        }
        match variable_for_alias(aliases, state[i].0.as_str()) {
            Some(variable) => {
                let ghost before = out.deep_view();
                let value = state[i].1.clone();
                out.push((variable, value));
                assert(out.deep_view() =~= before.push((variable@, value@)));
            },
            None => {},
        }
        i = i + 1;
    }
    assert(st.take(state.len() as int) =~= st);
    let ghost mid = out.deep_view();
    let mut j: usize = 0;
    while j < forced.len()
        invariant
            mid == state_exports(st, al),
            j <= forced.len(),
            out.deep_view() == mid + forced.deep_view().take(j as int),
        decreases forced.len() - j,
    {
        let ghost before = out.deep_view();
        let pair = (forced[j].0.clone(), forced[j].1.clone());
        out.push(pair);
        assert(forced.deep_view()[j as int] == (forced[j as int].0@, forced[j as int].1@));
        assert(out.deep_view() =~= before.push(forced.deep_view()[j as int]));
        assert(forced.deep_view().take(j + 1) =~= forced.deep_view().take(j as int).push(
            forced.deep_view()[j as int],
        ));
        assert(out.deep_view() =~= mid + forced.deep_view().take(j + 1));
        j = j + 1;
    }
    assert(forced.deep_view().take(forced.len() as int) =~= forced.deep_view());
    out
}

/// The init script of no variables is the `PATH` guard, wrapper and
/// completion hook alone; one more variable adds exactly its export line just
/// before them, after the lines of the earlier variables. So in every shell
/// the script holds one export line per pair, in order, and nothing else
/// before the guard.
pub proof fn lemma_init_text_lines(
    shell: EnvShell,
    exports: Seq<(Seq<char>, Seq<char>)>,
    pair: (Seq<char>, Seq<char>),
    bin: Seq<char>,
)
    ensures
        init_text(shell, Seq::empty(), bin) == path_and_wrapper(shell, bin),
        init_text(shell, exports.push(pair), bin) == export_lines(shell, exports) + export_line(
            shell,
            pair.0,
            pair.1,
        ) + path_and_wrapper(shell, bin),
{
    assert(Seq::<char>::empty() + path_and_wrapper(shell, bin) =~= path_and_wrapper(shell, bin));
    assert(exports.push(pair).drop_last() =~= exports);
}

/// Every export line is there: the script starts with the lines of the first
/// `k` pairs, followed by the line of pair `k`, for each `k`.
pub proof fn lemma_init_text_has_each_line(
    shell: EnvShell,
    exports: Seq<(Seq<char>, Seq<char>)>,
    k: int,
)
    requires
        0 <= k < exports.len(),
    ensures
        export_lines(shell, exports.take(k + 1)) == export_lines(shell, exports.take(k))
            + export_line(shell, exports[k].0, exports[k].1),
        (export_lines(shell, exports.take(k + 1))).is_prefix_of(export_lines(shell, exports)),
    decreases exports.len() - k,
{
    assert(exports.take(k + 1).drop_last() =~= exports.take(k));
    if k + 1 < exports.len() {
        lemma_init_text_has_each_line(shell, exports, k + 1);
        let a = export_lines(shell, exports.take(k + 1));
        let b = export_lines(shell, exports.take(k + 2));
        assert(a.is_prefix_of(b)) by {
            assert(a =~= b.subrange(0, a.len() as int));
        }
    } else {
        assert(exports.take(k + 1) =~= exports);
        let a = export_lines(shell, exports);
        assert(a =~= a.subrange(0, a.len() as int));
    }
}

/// Looking up an alias gives the variable of the first catalog entry with
/// that alias, at any position (the last one included), and nothing only when
/// no entry has that alias.
pub proof fn lemma_alias_lookup(aliases: Seq<(Seq<char>, Seq<char>)>, alias: Seq<char>)
    ensures
        forall|i: int|
            0 <= i < aliases.len() && #[trigger] aliases[i].0 == alias && (forall|k: int|
                0 <= k < i ==> aliases[k].0 != alias) ==> alias_variable(aliases, alias) == Some(
                aliases[i].1,
            ),
        (forall|k: int| 0 <= k < aliases.len() ==> aliases[k].0 != alias) ==> alias_variable(
            aliases,
            alias,
        ) is None,
        alias_variable(aliases, alias) is None ==> forall|k: int|
            0 <= k < aliases.len() ==> aliases[k].0 != alias,
    decreases aliases.len(),
{
    if aliases.len() > 0 {
        let rest = aliases.drop_first();
        lemma_alias_lookup(rest, alias);
        assert forall|i: int|
            0 <= i < aliases.len() && #[trigger] aliases[i].0 == alias && (forall|k: int|
                0 <= k < i ==> aliases[k].0 != alias) implies alias_variable(aliases, alias) == Some(
            aliases[i].1,
        ) by {
            if i > 0 {
                assert(rest[i - 1] == aliases[i]);
                assert forall|k: int| 0 <= k < i - 1 implies rest[k].0 != alias by {
                    assert(rest[k] == aliases[k + 1]);
                }
            }
        }
        if alias_variable(aliases, alias) is None {
            assert forall|k: int| 0 <= k < aliases.len() implies aliases[k].0 != alias by {
                if k > 0 {
                    assert(rest[k - 1] == aliases[k]);
                }
            }
        }
        if forall|k: int| 0 <= k < aliases.len() ==> aliases[k].0 != alias {
            assert forall|k: int| 0 <= k < rest.len() implies rest[k].0 != alias by {
                assert(rest[k] == aliases[k + 1]);
            }
        }
    }
}

/// No stored entries export nothing; one more stored entry `(alias, value)`
/// adds exactly one exported pair, the variable of the first catalog entry
/// with that alias and the value, when the catalog has the alias, and none
/// when it does not.
pub proof fn lemma_state_entry_exported(
    state: Seq<(Seq<char>, Seq<char>)>,
    aliases: Seq<(Seq<char>, Seq<char>)>,
    alias: Seq<char>,
    value: Seq<char>,
    i: int,
)
    ensures
        state_exports(Seq::empty(), aliases) == Seq::<(Seq<char>, Seq<char>)>::empty(),
        0 <= i < aliases.len() && aliases[i].0 == alias && (forall|k: int|
            0 <= k < i ==> aliases[k].0 != alias) ==> state_exports(state.push((alias, value)), aliases)
            == state_exports(state, aliases).push((aliases[i].1, value)),
        (forall|k: int| 0 <= k < aliases.len() ==> aliases[k].0 != alias) ==> state_exports(
            state.push((alias, value)),
            aliases,
        ) == state_exports(state, aliases),
{
    lemma_alias_lookup(aliases, alias);
    assert(state.push((alias, value)).drop_last() =~= state);
    if 0 <= i < aliases.len() && aliases[i].0 == alias {
        assert(aliases[i].0 == alias);
    }
}

} // verus!
