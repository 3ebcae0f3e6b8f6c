use lum_yt::{fish_quote, init_exports, init_script, powershell_quote, shell_quote, EnvShell};

#[test]
fn posix_quote_closes_around_escaped_quote() {
    assert_eq!(shell_quote("plain"), "'plain'");
    assert_eq!(shell_quote("it's"), r"'it'\''s'");
    assert_eq!(shell_quote(""), "''");
    assert_eq!(shell_quote("a\\b\nc"), "'a\\b\nc'");
}

#[test]
fn powershell_quote_doubles_quotes() {
    assert_eq!(powershell_quote("it's"), "'it''s'");
    assert_eq!(powershell_quote("a\\b"), "'a\\b'");
    assert_eq!(powershell_quote("''"), "''''''");
}

#[test]
fn fish_quote_escapes_backslash_and_quote() {
    assert_eq!(fish_quote("line1\nline2'quote\\back"), "'line1\nline2\\'quote\\\\back'");
    assert_eq!(fish_quote("\\'"), r"'\\\''");
}

#[test]
fn default_shell_follows_platform() {
    assert_eq!(EnvShell::for_platform(true), EnvShell::Powershell);
    assert_eq!(EnvShell::for_platform(false), EnvShell::Posix);
}

#[test]
fn posix_init_script_is_exact() {
    let exports = vec![("OPENROUTER_API_KEY".to_string(), "sk-'x".to_string())];
    let script = init_script(EnvShell::Posix, &exports, "/opt/lum bin");
    let expected = format!(
        "export OPENROUTER_API_KEY='sk-'\\''x'\n{}\n",
        r#"case ":$PATH:" in
  *":/opt/lum bin:"*) ;;
  *) export PATH='/opt/lum bin':$PATH ;;
esac
lum() {
  if [ "$1" = "env" ]; then
    case "$2" in
      set|unset)
        eval "$(command lum "$@")"
        ;;
      *)
        command lum "$@"
        ;;
    esac
  else
    command lum "$@"
  fi
}

# --- lum shell completion ---
if [ -n "$BASH_VERSION" ]; then
  eval "$(command lum __completions bash)"
elif [ -n "$ZSH_VERSION" ]; then
  if ! command -v compdef >/dev/null 2>&1; then
    autoload -Uz compinit && compinit -i
  fi
  eval "$(command lum __completions zsh)"
fi
# --- end lum shell completion ---"#
    );
    assert_eq!(script, expected);
}

#[test]
fn powershell_init_script_is_exact() {
    let exports = vec![("A".to_string(), "1".to_string()), ("B".to_string(), "it's".to_string())];
    let script = init_script(EnvShell::Powershell, &exports, r"C:\lum");
    let expected = format!(
        "$env:A = '1'\n$env:B = 'it''s'\n{}\n",
        r#"if (($env:PATH -split ';') -notcontains 'C:\lum') {
  $env:PATH = 'C:\lum' + ';' + $env:PATH
}
function global:lum {
  if (($args.Count -ge 2) -and ($args[0] -eq 'env') -and ($args[1] -eq 'set')) {
    Invoke-Expression (& lum.exe env set --shell powershell @($args | Select-Object -Skip 2))
  } elseif (($args.Count -ge 2) -and ($args[0] -eq 'env') -and ($args[1] -eq 'unset')) {
    Invoke-Expression (& lum.exe env unset --shell powershell @($args | Select-Object -Skip 2))
  } else {
    & lum.exe @args
  }
}

# --- lum shell completion ---
Invoke-Expression (& lum.exe __completions powershell | Out-String)
# --- end lum shell completion ---"#
    );
    assert_eq!(script, expected);
}

#[test]
fn fish_init_script_is_exact() {
    let script = init_script(EnvShell::Fish, &Vec::new(), "/usr/local/bin");
    let expected = format!(
        "{}\n",
        r#"if not contains -- '/usr/local/bin' $PATH
  set -gx PATH '/usr/local/bin' $PATH
end
function lum --description 'lum wrapper (auto eval env set/unset)'
  if test (count $argv) -ge 2; and test "$argv[1]" = env; and contains -- "$argv[2]" set unset
    # Find the shell asked for (the last --shell before --) and any help flag.
    set -l shell
    set -l i 3
    while test $i -le (count $argv)
      set -l arg $argv[$i]
      if test "$arg" = --
        break
      else if contains -- "$arg" --help -h
        command lum $argv
        return $status
      else if test "$arg" = --shell
        set i (math $i + 1)
        set shell $argv[$i]
      else if string match -q -- '--shell=*' "$arg"
        set shell (string replace -- '--shell=' '' "$arg")
      end
      set i (math $i + 1)
    end
    # Only fish code is applied, read whole so multi-line values stay intact;
    # code for another shell is printed.
    if test -z "$shell"
      command lum $argv[1..2] --shell fish $argv[3..-1] | source
      return $pipestatus[1]
    else if test "$shell" = fish
      command lum $argv | source
      return $pipestatus[1]
    else
      command lum $argv
      return $status
    end
  else
    command lum $argv
  end
end

# --- lum shell completion ---
command lum __completions fish | source
# --- end lum shell completion ---"#
    );
    assert_eq!(script, expected);
    let with_export = init_script(EnvShell::Fish, &vec![("V".to_string(), "a\\b".to_string())], "/b");
    assert!(with_export.starts_with("set -gx V 'a\\\\b'\nif not contains -- '/b' $PATH\n"));
}

#[test]
fn init_exports_maps_aliases_then_forced() {
    let pairs = |l: &[(&str, &str)]| -> Vec<(String, String)> {
        l.iter().map(|(a, b)| (a.to_string(), b.to_string())).collect()
    };
    let state = pairs(&[("anthropic", "a-key"), ("nope", "x"), ("openrouter", "o-key")]);
    let aliases = pairs(&[("openrouter", "OPENROUTER_API_KEY"), ("anthropic", "ANTHROPIC_API_KEY"), ("openrouter", "SHADOWED")]);
    let forced = pairs(&[("LUM_FORCED", "1")]);
    assert_eq!(
        init_exports(&state, &aliases, &forced),
        pairs(&[
            ("ANTHROPIC_API_KEY", "a-key"),
            ("OPENROUTER_API_KEY", "o-key"),
            ("LUM_FORCED", "1"),
        ])
    );
    assert!(init_exports(&Vec::new(), &aliases, &Vec::new()).is_empty());
}

#[test]
fn powershell_quote_leaves_typographic_quotes() {
    assert_eq!(powershell_quote("it\u{2019}s"), "'it\u{2019}s'");
}
