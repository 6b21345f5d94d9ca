//! Command lines for a POSIX shell: quoting, joining, wrapping.
use crate::text;
use crate::text::{concat3, same, to_chars};
use vstd::prelude::*;

verus! {

// ---------------------------------------------------------------------------
// Quoting
// ---------------------------------------------------------------------------
/// `s` as it stands between single quotes: each single quote in it closes the
/// quotation, stands for itself behind a backslash, and opens the quotation again.
pub open spec fn escaped(s: Seq<char>) -> Seq<char>
    decreases s.len(),
{
    if s.len() == 0 {
        Seq::empty()
    } else if s.last() == '\'' {
        escaped(s.drop_last()) + "'\\''"@
    } else {
        escaped(s.drop_last()).push(s.last())
    }
}

/// `s` as one word of a shell command.
pub open spec fn quoted(s: Seq<char>) -> Seq<char> {
    if s.len() == 0 {
        "''"@
    } else {
        "'"@ + escaped(s) + "'"@
    }
}

fn escape(s: &str) -> (r: String)
    ensures
        r@ == escaped(s@),
{
    let v = to_chars(s);
    let mut r = String::new();
    let mut i: usize = 0;
    while i < v.len()
        invariant
            i <= v.len(),
            r@ == escaped(v@.take(i as int)),
        decreases v.len() - i,
    {
        assert(v@.take(i + 1).drop_last() == v@.take(i as int));
        if v[i] == '\'' {
            r.append("'\\''");
        } else {
            r.push(v[i]);
        }
        i += 1;
    }
    assert(v@.take(i as int) == v@);
    r
}

/// Shell-quote a single argument with single quotes. The empty string becomes `''`.
pub fn shell_quote(arg: &str) -> (r: String)
    ensures
        r@ == quoted(arg@),
{
    if arg.is_empty() {
        return "''".to_owned();
    }
    let inner = escape(arg);
    concat3("'", inner.as_str(), "'")
}

// ---------------------------------------------------------------------------
// Commands from argument lists
// ---------------------------------------------------------------------------
/// The arguments with `first` in place of the first one and the others quoted.
pub open spec fn words_with_first(argv: Seq<Seq<char>>, first: Seq<char>) -> Seq<Seq<char>> {
    Seq::new(
        argv.len(),
        |i: int|
            if i == 0 {
                first
            } else {
                quoted(argv[i])
            },
    )
}

/// Every argument quoted, with a space between two of them.
pub open spec fn remote_command(argv: Seq<Seq<char>>) -> Seq<char> {
    text::join_of(words_with_first(argv, quoted(argv[0])), " "@)
}

/// A command word that a shell takes as it stands.
pub open spec fn is_safe_word(s: Seq<char>) -> bool {
    s.len() > 0 && forall|i: int| 0 <= i < s.len() ==> is_safe_char(#[trigger] s[i])
}

pub open spec fn is_safe_char(c: char) -> bool {
    let u = c as u32;
    ||| 0x30 <= u <= 0x39
    ||| 0x41 <= u <= 0x5a
    ||| 0x61 <= u <= 0x7a
    ||| c == '_'
    ||| c == '-'
    ||| c == '.'
    ||| c == '/'
    ||| c == '+'
}

/// As `remote_command`, but a safe first word stays bare so that aliases expand.
pub open spec fn interactive_command(argv: Seq<Seq<char>>) -> Seq<char> {
    text::join_of(
        words_with_first(
            argv,
            if is_safe_word(argv[0]) {
                argv[0]
            } else {
                quoted(argv[0])
            },
        ),
        " "@,
    )
}

/// As `remote_command`, but the first word always stays bare.
pub open spec fn shell_inner_command(argv: Seq<Seq<char>>) -> Seq<char> {
    text::join_of(words_with_first(argv, argv[0]), " "@)
}

/// The first word as given and the remaining arguments quoted.
fn join_words(argv: &[String], first: &str) -> (r: String)
    ensures
        r@ == text::join_of(words_with_first(text::texts(argv@), first@), " "@),
{
    let mut words: Vec<String> = Vec::new();
    let mut i: usize = 0;
    while i < argv.len()
        invariant
            i <= argv.len(),
            text::texts(words@) == words_with_first(text::texts(argv@), first@).take(i as int),
        decreases argv.len() - i,
    {
        let ghost before = text::texts(words@);
        let word = if i == 0 {
            first.to_owned()
        } else {
            shell_quote(argv[i].as_str())
        };
        words.push(word);
        i += 1;
        assert(text::texts(words@) == before.push(word@));
        assert(text::texts(words@) == words_with_first(text::texts(argv@), first@).take(i as int));
    }
    assert(words_with_first(text::texts(argv@), first@).take(i as int) == words_with_first(
        text::texts(argv@),
        first@,
    ));
    text::join(words.as_slice(), " ")
}

/// The empty command has no words, whatever the first one would be.
proof fn lemma_no_words(argv: Seq<Seq<char>>, a: Seq<char>, b: Seq<char>)
    requires
        argv.len() == 0,
    ensures
        words_with_first(argv, a) == words_with_first(argv, b),
{
    assert(words_with_first(argv, a) =~= words_with_first(argv, b));
}

/// Build a remote command by shell-quoting every argument.
pub fn build_remote_command(argv: &[String]) -> (r: String)
    ensures
        r@ == remote_command(text::texts(argv@)),
{
    let first = if argv.len() > 0 {
        shell_quote(argv[0].as_str())
    } else {
        String::new()
    };
    proof {
        if argv@.len() == 0 {
            lemma_no_words(text::texts(argv@), first@, quoted(text::texts(argv@)[0]));
        }
    }
    join_words(argv, first.as_str())
}

/// Whether a word needs no quoting.
pub fn is_safe_shell_command_word(arg: &str) -> (r: bool)
    ensures
        r == is_safe_word(arg@),
{
    let v = to_chars(arg);
    if v.len() == 0 {
        return false;
    }
    let mut i: usize = 0;
    while i < v.len()
        invariant
            i <= v.len(),
            v@ == arg@,
            forall|j: int| 0 <= j < i ==> is_safe_char(#[trigger] v@[j]),
        decreases v.len() - i,
    {
        let c = v[i];
        let u: u32 = c as u32;
        let safe = (0x30 <= u && u <= 0x39) || (0x41 <= u && u <= 0x5a) || (0x61 <= u && u <= 0x7a)
            || c == '_' || c == '-' || c == '.' || c == '/' || c == '+';
        if !safe {
            assert(!is_safe_char(v@[i as int]));
            return false;
        }
        i += 1;
    }
    true
}

/// Build an interactive shell command: a safe first word is left unquoted so
/// that shell aliases can expand.
pub fn build_interactive_shell_command(argv: &[String]) -> (r: String)
    ensures
        r@ == interactive_command(text::texts(argv@)),
{
    let first = if argv.len() > 0 {
        if is_safe_shell_command_word(argv[0].as_str()) {
            argv[0].clone()
        } else {
            shell_quote(argv[0].as_str())
        }
    } else {
        String::new()
    };
    proof {
        let t = text::texts(argv@);
        if argv@.len() == 0 {
            lemma_no_words(
                t,
                first@,
                if is_safe_word(t[0]) {
                    t[0]
                } else {
                    quoted(t[0])
                },
            );
        }
    }
    join_words(argv, first.as_str())
}

/// The flags of a shell: an interactive one for the shells whose aliases need it.
pub open spec fn flags_of(shell: Seq<char>) -> Seq<char> {
    if shell == "bash"@ || shell == "zsh"@ {
        "-ic"@
    } else {
        "-c"@
    }
}

/// The flags for a shell: `-ic` for bash and zsh, `-c` for every other one.
pub fn shell_flags(shell_name: &str) -> (r: &'static str)
    ensures
        r@ == flags_of(shell_name@),
{
    if same(shell_name, "bash") || same(shell_name, "zsh") {
        "-ic"
    } else {
        "-c"
    }
}

/// `inner` as the command argument of an invocation of `shell`.
pub open spec fn wrapped_in_shell(inner: Seq<char>, shell: Seq<char>) -> Seq<char> {
    shell + " "@ + flags_of(shell) + " '"@ + escaped(inner) + "'"@
}

/// Wrap a command in an invocation of the given shell.
pub fn wrap_in_shell(inner_cmd: &str, shell_name: &str) -> (r: String)
    ensures
        r@ == wrapped_in_shell(inner_cmd@, shell_name@),
{
    let inner = escape(inner_cmd);
    let mut r = text::concat5(shell_name, " ", shell_flags(shell_name), " '", inner.as_str());
    r.append("'");
    r
}

/// The command that is run for `argv` under `shell`; the empty shell wraps nothing.
pub open spec fn final_command(argv: Seq<Seq<char>>, shell: Seq<char>) -> Seq<char> {
    if shell.len() == 0 {
        remote_command(argv)
    } else {
        wrapped_in_shell(shell_inner_command(argv), shell)
    }
}

/// Build the command line for use inside a shell wrapper: the command name stays
/// unquoted so that aliases expand, the other arguments are quoted.
pub fn build_shell_inner_command(argv: &[String]) -> (r: String)
    ensures
        r@ == shell_inner_command(text::texts(argv@)),
{
    let first = if argv.len() > 0 {
        argv[0].clone()
    } else {
        String::new()
    };
    proof {
        if argv@.len() == 0 {
            lemma_no_words(text::texts(argv@), first@, text::texts(argv@)[0]);
        }
    }
    join_words(argv, first.as_str())
}

/// Build the final remote command, wrapped in a shell unless `shell` is empty.
pub fn build_final_command(argv: &[String], shell: &str) -> (r: String)
    ensures
        r@ == final_command(text::texts(argv@), shell@),
{
    if shell.is_empty() {
        build_remote_command(argv)
    } else {
        let inner = build_shell_inner_command(argv);
        wrap_in_shell(inner.as_str(), shell)
    }
}

// ---------------------------------------------------------------------------
// Which shell
// ---------------------------------------------------------------------------
/// The shell to wrap in: the first of command line, server entry and defaults that
/// speaks. `no_shell`, a command-line `false`, and an empty name mean none.
pub open spec fn shell_choice(
    cli: Option<Seq<char>>,
    no_shell: bool,
    server: Option<Seq<char>>,
    defaults: Seq<char>,
) -> Option<Seq<char>> {
    if no_shell {
        None
    } else if cli is Some {
        if cli->0 == "false"@ {
            None
        } else {
            cli
        }
    } else if server is Some {
        if server->0.len() == 0 {
            None
        } else {
            server
        }
    } else if defaults.len() == 0 {
        None
    } else {
        Some(defaults)
    }
}

/// Resolve the effective shell-wrapping decision.
pub fn resolve_shell(
    cli_shell: Option<&str>,
    no_shell: bool,
    server_shell: Option<&str>,
    defaults_shell: &str,
) -> (r: Option<String>)
    ensures
        text::opt(r) == shell_choice(
            text::opt_str(cli_shell),
            no_shell,
            text::opt_str(server_shell),
            defaults_shell@,
        ),
{
    if no_shell {
        return None;
    }
    if let Some(name) = cli_shell {
        if same(name, "false") {
            return None;
        }
        return Some(name.to_owned());
    }
    if let Some(shell) = server_shell {
        if shell.is_empty() {
            return None;
        }
        return Some(shell.to_owned());
    }
    if defaults_shell.is_empty() {
        None
    } else {
        Some(defaults_shell.to_owned())
    }
}

// ---------------------------------------------------------------------------
// How a shell reads such a command
// ---------------------------------------------------------------------------
/// Where a shell stands in a line: between or inside words, inside single
/// quotes, or behind a backslash.
pub enum Quoting {
    Bare,
    Single,
    Backslash,
}

/// What a shell has read of a line: the finished words and the word at hand.
pub struct Reading {
    pub words: Seq<Seq<char>>,
    pub word: Option<Seq<char>>,
    pub quoting: Quoting,
}

impl Reading {
    pub open spec fn append(self, c: char) -> Option<Seq<char>> {
        match self.word {
            Some(w) => Some(w.push(c)),
            None => Some(seq![c]),
        }
    }

    /// A POSIX shell's reading of one more character (without expansions).
    pub open spec fn step(self, c: char) -> Reading {
        match self.quoting {
            Quoting::Single => if c == '\'' {
                Reading { quoting: Quoting::Bare, ..self }
            } else {
                Reading { word: self.append(c), ..self }
            },
            Quoting::Backslash => Reading {
                word: self.append(c),
                quoting: Quoting::Bare,
                ..self
            },
            Quoting::Bare => if c == '\'' {
                Reading {
                    word: Some(
                        match self.word {
                            Some(w) => w,
                            None => Seq::empty(),
                        },
                    ),
                    quoting: Quoting::Single,
                    ..self
                }
            } else if c == '\\' {
                Reading { quoting: Quoting::Backslash, ..self }
            } else if c == ' ' {
                match self.word {
                    Some(w) => Reading { words: self.words.push(w), word: None, ..self },
                    None => self,
                }
            } else {
                Reading { word: self.append(c), ..self }
            },
        }
    }

    pub open spec fn read(self, s: Seq<char>) -> Reading
        decreases s.len(),
    {
        if s.len() == 0 {
            self
        } else {
            self.read(s.drop_last()).step(s.last())
        }
    }

    /// The words of the line, if no quotation is left open.
    pub open spec fn finish(self) -> Option<Seq<Seq<char>>> {
        match self.quoting {
            Quoting::Bare => Some(
                match self.word {
                    Some(w) => self.words.push(w),
                    None => self.words,
                },
            ),
            _ => None,
        }
    }
}

/// The words that a POSIX shell makes of a line without expansions.
pub open spec fn shell_words(s: Seq<char>) -> Option<Seq<Seq<char>>> {
    (Reading { words: Seq::empty(), word: None, quoting: Quoting::Bare }).read(s).finish()
}

pub proof fn lemma_read_concat(r: Reading, a: Seq<char>, b: Seq<char>)
    ensures
        r.read(a + b) == r.read(a).read(b),
    decreases b.len(),
{
    if b.len() == 0 {
        assert(a + b == a);
    } else {
        assert((a + b).drop_last() == a + b.drop_last());
        assert((a + b).last() == b.last());
        lemma_read_concat(r, a, b.drop_last());
    }
}

proof fn lemma_read_one(r: Reading, c: char)
    ensures
        r.read(seq![c]) == r.step(c),
{
    assert(seq![c].drop_last() == Seq::<char>::empty());
    assert(r.read(Seq::<char>::empty()) == r);
}

/// Inside single quotes, an escaped text adds that text to the word.
proof fn lemma_read_escaped(r: Reading, w: Seq<char>, s: Seq<char>)
    requires
        r.quoting is Single,
        r.word == Some(w),
    ensures
        r.read(escaped(s)) == (Reading { word: Some(w + s), ..r }),
    decreases s.len(),
{
    if s.len() == 0 {
        assert(w + s == w);
    } else {
        let init = s.drop_last();
        lemma_read_escaped(r, w, init);
        let at = r.read(escaped(init));
        assert(w + s == (w + init).push(s.last()));
        if s.last() == '\'' {
            reveal_strlit("'\\''");
            assert("'\\''"@ == seq!['\'', '\\', '\'', '\'']);
            lemma_read_concat(r, escaped(init), "'\\''"@);
            assert(seq!['\'', '\\', '\'', '\''].drop_last() == seq!['\'', '\\', '\'']);
            assert(seq!['\'', '\\', '\''].drop_last() == seq!['\'', '\\']);
            assert(seq!['\'', '\\'].drop_last() == seq!['\'']);
            lemma_read_one(at, '\'');
            assert(at.read(seq!['\'', '\\']) == at.step('\'').step('\\'));
            assert(at.read(seq!['\'', '\\', '\'']) == at.step('\'').step('\\').step('\''));
            assert(at.read(seq!['\'', '\\', '\'', '\'']) == at.step('\'').step('\\').step(
                '\'',
            ).step('\''));
        } else {
            assert(escaped(s).drop_last() == escaped(init));
        }
    }
}

/// A quoted argument is read as one word that is that argument.
pub proof fn lemma_read_quoted(r: Reading, s: Seq<char>)
    requires
        r.quoting is Bare,
        r.word is None,
    ensures
        r.read(quoted(s)) == (Reading { word: Some(s), ..r }),
{
    reveal_strlit("'");
    reveal_strlit("''");
    assert("'"@ == seq!['\'']);
    lemma_read_one(r, '\'');
    let open = r.step('\'');
    if s.len() == 0 {
        assert("''"@.drop_last() == seq!['\'']);
        assert(r.read("''"@) == r.read("''"@.drop_last()).step('\''));
        assert(s == Seq::<char>::empty());
    } else {
        lemma_read_concat(r, "'"@ + escaped(s), "'"@);
        lemma_read_concat(r, "'"@, escaped(s));
        lemma_read_escaped(open, Seq::empty(), s);
        assert(Seq::<char>::empty() + s == s);
        lemma_read_one(open.read(escaped(s)), '\'');
    }
}

/// The words of a line that joins quoted words are those words.
proof fn lemma_read_quoted_words(argv: Seq<Seq<char>>)
    requires
        argv.len() > 0,
    ensures
        ({
            let r = Reading { words: Seq::empty(), word: None, quoting: Quoting::Bare };
            r.read(remote_command(argv)) == (Reading {
                words: argv.drop_last(),
                word: Some(argv.last()),
                quoting: Quoting::Bare,
            })
        }),
    decreases argv.len(),
{
    let r = Reading { words: Seq::empty(), word: None, quoting: Quoting::Bare };
    let words = words_with_first(argv, quoted(argv[0]));
    if argv.len() == 1 {
        lemma_read_quoted(r, argv[0]);
        assert(argv.drop_last() == Seq::<Seq<char>>::empty());
    } else {
        let init = argv.drop_last();
        lemma_read_quoted_words(init);
        assert(words.drop_last() == words_with_first(init, quoted(init[0])));
        let head = remote_command(init);
        lemma_read_concat(r, head + " "@, quoted(argv.last()));
        lemma_read_concat(r, head, " "@);
        reveal_strlit(" ");
        assert(" "@ == seq![' ']);
        lemma_read_one(r.read(head), ' ');
        let mid = r.read(head + " "@);
        assert(init.drop_last().push(init.last()) == init);
        assert(mid == (Reading { words: init, word: None, quoting: Quoting::Bare }));
        lemma_read_quoted(mid, argv.last());
    }
}

/// A shell reads the command that `build_remote_command` builds as exactly the
/// arguments that it was built from.
pub proof fn law_remote_command_keeps_arguments(argv: Seq<Seq<char>>)
    ensures
        shell_words(remote_command(argv)) == Some(argv),
{
    if argv.len() == 0 {
        assert(words_with_first(argv, quoted(argv[0])).len() == 0);
        assert(argv == Seq::<Seq<char>>::empty());
    } else {
        lemma_read_quoted_words(argv);
        assert(argv.drop_last().push(argv.last()) == argv);
    }
}

proof fn lemma_read_bare(r: Reading, s: Seq<char>)
    requires
        r.quoting is Bare,
        r.word is None,
        s.len() > 0,
        forall|i: int| 0 <= i < s.len() ==> s[i] != ' ' && s[i] != '\'' && s[i] != '\\',
    ensures
        r.read(s) == (Reading { word: Some(s), ..r }),
    decreases s.len(),
{
    if s.len() == 1 {
        assert(s == seq![s[0]]);
        lemma_read_one(r, s[0]);
    } else {
        lemma_read_bare(r, s.drop_last());
        assert(s.drop_last().push(s.last()) == s);
    }
}

/// A shell reads a wrapped command as three words: the shell, its flags, and the
/// inner command unchanged.
pub proof fn law_wrapping_keeps_command(inner: Seq<char>, shell: Seq<char>)
    requires
        shell.len() > 0,
        forall|i: int| 0 <= i < shell.len() ==> shell[i] != ' ' && shell[i] != '\'' && shell[i] != '\\',
    ensures
        shell_words(wrapped_in_shell(inner, shell)) == Some(seq![shell, flags_of(shell), inner]),
{
    let r = Reading { words: Seq::empty(), word: None, quoting: Quoting::Bare };
    let flags = flags_of(shell);
    reveal_strlit("-ic");
    reveal_strlit("-c");
    reveal_strlit(" ");
    reveal_strlit(" '");
    reveal_strlit("'");
    assert(" "@ == seq![' ']);
    assert(" '"@ == seq![' '] + seq!['\'']);
    assert("'"@ == seq!['\'']);
    let a = shell + " "@;
    let b = a + flags;
    let c = b + " '"@;
    let d = c + escaped(inner);
    lemma_read_bare(r, shell);
    lemma_read_concat(r, shell, " "@);
    lemma_read_one(r.read(shell), ' ');
    let ra = r.read(a);
    assert(ra == (Reading { words: Seq::empty().push(shell), word: None, quoting: Quoting::Bare }));
    lemma_read_concat(r, a, flags);
    lemma_read_bare(ra, flags);
    let rb = r.read(b);
    lemma_read_concat(r, b, " '"@);
    lemma_read_concat(rb, seq![' '], seq!['\'']);
    lemma_read_one(rb, ' ');
    lemma_read_one(rb.step(' '), '\'');
    let rc = r.read(c);
    lemma_read_concat(r, c, escaped(inner));
    lemma_read_escaped(rc, Seq::empty(), inner);
    assert(Seq::<char>::empty() + inner == inner);
    let rd = r.read(d);
    lemma_read_concat(r, d, "'"@);
    lemma_read_one(rd, '\'');
    assert(rd.words == Seq::<Seq<char>>::empty().push(shell).push(flags));
    assert(rd.words.push(inner) == seq![shell, flags, inner]);
}

proof fn lemma_read_words(argv: Seq<Seq<char>>, first: Seq<char>)
    requires
        argv.len() > 0,
        ({
            let r = Reading { words: Seq::empty(), word: None, quoting: Quoting::Bare };
            r.read(first) == (Reading { word: Some(argv[0]), ..r })
        }),
    ensures
        ({
            let r = Reading { words: Seq::empty(), word: None, quoting: Quoting::Bare };
            r.read(text::join_of(words_with_first(argv, first), " "@)) == (Reading {
                words: argv.drop_last(),
                word: Some(argv.last()),
                quoting: Quoting::Bare,
            })
        }),
    decreases argv.len(),
{
    let r = Reading { words: Seq::empty(), word: None, quoting: Quoting::Bare };
    let words = words_with_first(argv, first);
    if argv.len() == 1 {
        assert(argv.drop_last() == Seq::<Seq<char>>::empty());
    } else {
        let init = argv.drop_last();
        lemma_read_words(init, first);
        assert(words.drop_last() == words_with_first(init, first));
        let head = text::join_of(words_with_first(init, first), " "@);
        lemma_read_concat(r, head + " "@, quoted(argv.last()));
        lemma_read_concat(r, head, " "@);
        reveal_strlit(" ");
        assert(" "@ == seq![' ']);
        lemma_read_one(r.read(head), ' ');
        let mid = r.read(head + " "@);
        assert(init.drop_last().push(init.last()) == init);
        assert(mid == (Reading { words: init, word: None, quoting: Quoting::Bare }));
        lemma_read_quoted(mid, argv.last());
    }
}

/// A letter of the alphabet or a digit.
pub open spec fn is_letter_or_digit(c: char) -> bool {
    let u = c as u32;
    text::is_digit(c) || 'a' as u32 <= u <= 'z' as u32 || 'A' as u32 <= u <= 'Z' as u32
}

/// A shell reads the command of an interactive session as exactly the arguments that it was
/// built from. A first word of letters, digits and the like stands bare, so that the shell can
/// expand it as an alias.
pub proof fn law_interactive_command_keeps_arguments(argv: Seq<Seq<char>>)
    requires
        argv.len() > 0,
    ensures
        shell_words(interactive_command(argv)) == Some(argv),
        argv[0].len() > 0 && (forall|i: int|
            0 <= i < argv[0].len() ==> is_letter_or_digit(#[trigger] argv[0][i])) ==> text::begins(
            interactive_command(argv),
            argv[0],
        ),
{
    let r = Reading { words: Seq::empty(), word: None, quoting: Quoting::Bare };
    let first = if is_safe_word(argv[0]) {
        argv[0]
    } else {
        quoted(argv[0])
    };
    if is_safe_word(argv[0]) {
        assert forall|i: int| 0 <= i < argv[0].len() implies argv[0][i] != ' ' && argv[0][i]
            != '\'' && argv[0][i] != '\\' by {
            assert(is_safe_char(argv[0][i]));
        }
        lemma_read_bare(r, argv[0]);
    } else {
        lemma_read_quoted(r, argv[0]);
    }
    lemma_read_words(argv, first);
    assert(argv.drop_last().push(argv.last()) == argv);
    if argv[0].len() > 0 && (forall|i: int|
        0 <= i < argv[0].len() ==> is_letter_or_digit(#[trigger] argv[0][i])) {
        assert forall|i: int| 0 <= i < argv[0].len() implies is_safe_char(
            #[trigger] argv[0][i],
        ) by {}
        lemma_join_begins(words_with_first(argv, first), " "@);
    }
}

proof fn lemma_join_begins(words: Seq<Seq<char>>, separator: Seq<char>)
    requires
        words.len() > 0,
    ensures
        text::begins(text::join_of(words, separator), words[0]),
    decreases words.len(),
{
    let all = text::join_of(words, separator);
    if words.len() > 1 {
        lemma_join_begins(words.drop_last(), separator);
        let head = text::join_of(words.drop_last(), separator);
        assert(all.take(words[0].len() as int) =~= head.take(words[0].len() as int));
    } else {
        assert(all.take(words[0].len() as int) =~= words[0]);
    }
}

/// A command for a wrapping shell has its first word as it was given, for the shell to expand
/// as an alias, and its other arguments as the shell reads them back.
pub proof fn law_inner_command_keeps_arguments(argv: Seq<Seq<char>>)
    requires
        argv.len() > 0,
    ensures
        text::begins(shell_inner_command(argv), argv[0]),
        argv[0].len() > 0 && (forall|i: int|
            0 <= i < argv[0].len() ==> (#[trigger] argv[0][i]) != ' ' && argv[0][i] != '\''
                && argv[0][i] != '\\') ==> shell_words(shell_inner_command(argv)) == Some(argv),
{
    let r = Reading { words: Seq::empty(), word: None, quoting: Quoting::Bare };
    lemma_join_begins(words_with_first(argv, argv[0]), " "@);
    if argv[0].len() > 0 && (forall|i: int|
        0 <= i < argv[0].len() ==> (#[trigger] argv[0][i]) != ' ' && argv[0][i] != '\''
            && argv[0][i] != '\\') {
        lemma_read_bare(r, argv[0]);
        lemma_read_words(argv, argv[0]);
        assert(argv.drop_last().push(argv.last()) == argv);
    }
}

/// A command that is run in a shell reaches it as one word behind the flags that make the shell
/// run it: `-ic` where the shell would otherwise expand no alias, `-c` for any other. Without a
/// shell the command's own words are run.
pub proof fn law_command_runs_in_its_shell(argv: Seq<Seq<char>>, shell: Seq<char>)
    requires
        argv.len() > 0,
        forall|i: int|
            0 <= i < shell.len() ==> shell[i] != ' ' && shell[i] != '\'' && shell[i] != '\\',
    ensures
        ({
            let words = shell_words(final_command(argv, shell));
            let inner = shell_inner_command(argv);
            if shell.len() == 0 {
                words == Some(argv)
            } else if shell == "bash"@ || shell == "zsh"@ {
                words == Some(seq![shell, "-ic"@, inner])
            } else {
                words == Some(seq![shell, "-c"@, inner])
            }
        }),
{
    if shell.len() == 0 {
        law_remote_command_keeps_arguments(argv);
    } else {
        law_wrapping_keeps_command(shell_inner_command(argv), shell);
    }
}

/// A shell that was asked for on the command line is taken whatever is configured, a server's
/// own whatever the default is; `false`, an empty name or the request for none stands for none.
pub proof fn law_nearest_shell_is_taken(
    cli: Option<Seq<char>>,
    server: Option<Seq<char>>,
    defaults: Seq<char>,
)
    ensures
        shell_choice(cli, true, server, defaults) is None,
        cli matches Some(shell) ==> forall|s: Option<Seq<char>>, d: Seq<char>|
            shell_choice(cli, false, s, d) == if shell == "false"@ {
                None::<Seq<char>>
            } else {
                Some(shell)
            },
        server matches Some(shell) ==> forall|d: Seq<char>|
            #[trigger] shell_choice(None, false, server, d) == if shell.len() == 0 {
                None::<Seq<char>>
            } else {
                Some(shell)
            },
        shell_choice(None, false, None, defaults) == if defaults.len() == 0 {
            None::<Seq<char>>
        } else {
            Some(defaults)
        },
{
}

/// A text without quotes needs no escapes.
pub proof fn lemma_plain_is_kept(s: Seq<char>)
    requires
        forall|i: int| 0 <= i < s.len() ==> s[i] != '\'',
    ensures
        escaped(s) == s,
    decreases s.len(),
{
    if s.len() > 0 {
        lemma_plain_is_kept(s.drop_last());
        assert(s.drop_last().push(s.last()) =~= s);
    } else {
        assert(s =~= Seq::<char>::empty());
    }
}

/// Neither a blank nor a quote nor a backslash is in the text.
pub open spec fn is_bare(s: Seq<char>) -> bool {
    s.len() > 0 && forall|i: int|
        0 <= i < s.len() ==> s[i] != ' ' && s[i] != '\'' && s[i] != '\\'
}

proof fn lemma_reads_next(r: Reading, all: Seq<char>, word: Seq<char>, source: Seq<char>)
    requires
        r.read(all).quoting is Bare,
        r.read(all).word is Some,
        is_bare(word) && source == word || source == quoted(word),
    ensures
        r.read(all + seq![' '] + source) == (Reading {
            words: r.read(all).words.push(r.read(all).word->0),
            word: Some(word),
            quoting: Quoting::Bare,
        }),
{
    lemma_read_concat(r, all, seq![' ']);
    lemma_read_one(r.read(all), ' ');
    lemma_read_concat(r, all + seq![' '], source);
    let mid = r.read(all + seq![' ']);
    if source == quoted(word) {
        lemma_read_quoted(mid, word);
    } else {
        lemma_read_bare(mid, word);
    }
}

/// Four words with blanks between them, the third one quoted, are read as these words.
pub proof fn lemma_reads_four(a: Seq<char>, b: Seq<char>, c: Seq<char>, d: Seq<char>)
    requires
        is_bare(a),
        is_bare(b),
        is_bare(d),
    ensures
        shell_words(a + seq![' '] + b + seq![' '] + quoted(c) + seq![' '] + d) == Some(
            seq![a, b, c, d],
        ),
{
    let r = Reading { words: Seq::empty(), word: None, quoting: Quoting::Bare };
    let one = a;
    let two = one + seq![' '] + b;
    let three = two + seq![' '] + quoted(c);
    lemma_read_bare(r, a);
    lemma_reads_next(r, one, b, b);
    lemma_reads_next(r, two, c, quoted(c));
    lemma_reads_next(r, three, d, d);
    assert(Seq::<Seq<char>>::empty().push(a).push(b).push(c).push(d) =~= seq![a, b, c, d]);
}

} // verus!
