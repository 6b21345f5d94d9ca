//! Public keys and the file of authorized keys.
use crate::text;
use crate::text::{concat3, decimal, split, starts_with, to_chars, trim};
use vstd::prelude::*;

verus! {

/// What the daemon reads of a public key.
#[derive(Debug)]
pub struct PublicKey {
    /// The key in the binary form of the SSH protocol. It holds no comment.
    pub data: Vec<u8>,
    pub algorithm: String,
    /// The SHA-256 fingerprint.
    pub fingerprint: String,
    /// The key as a line of an authorized_keys file, if it can be written as one.
    pub line: Option<String>,
}

/// Data, algorithm, fingerprint and line of a key.
pub type KeyView = (Seq<u8>, Seq<char>, Seq<char>, Option<Seq<char>>);

impl View for PublicKey {
    type V = KeyView;

    open spec fn view(&self) -> KeyView {
        (self.data@, self.algorithm@, self.fingerprint@, text::opt(self.line))
    }
}

/// What a text in OpenSSH's format says of a key, or what is wrong with it.
pub uninterp spec fn openssh_key(text: Seq<char>) -> Result<
    (Seq<u8>, Seq<char>, Seq<char>, Option<Seq<char>>),
    Seq<char>,
>;

/// Calls `PublicKey::from_openssh` of the ssh-key crate and reads the key that it returns:
/// its binary form, the name of its algorithm, its SHA-256 fingerprint and its text. All of
/// it depends on the text alone. Two keys have the same key data exactly where their binary
/// forms are equal.
#[verifier::external_body]
fn read_openssh(text: &str) -> (r: Result<PublicKey, String>)
    ensures
        match r {
            Ok(key) => openssh_key(text@) == Ok::<KeyView, Seq<char>>(key@),
            Err(e) => openssh_key(text@) == Err::<KeyView, Seq<char>>(e@),
        },
{
    let key = russh::keys::ssh_key::PublicKey::from_openssh(text).map_err(|e| e.to_string())?;
    Ok(
        PublicKey {
            data: key.to_bytes().map_err(|e| e.to_string())?,
            algorithm: key.algorithm().to_string(),
            fingerprint: key.fingerprint(russh::keys::ssh_key::HashAlg::Sha256).to_string(),
            line: key.to_openssh().ok(),
        },
    )
}

/// Where the first white space of a text is; its length if there is none.
pub open spec fn first_white(s: Seq<char>) -> int
    decreases s.len(),
{
    if s.len() == 0 || text::is_white(s[0]) {
        0
    } else {
        1 + first_white(s.skip(1))
    }
}

/// The first word of a line carries options.
pub open spec fn has_options(line: Seq<char>) -> bool {
    exists|i: int| 0 <= i < first_white(line) && (#[trigger] line[i] == '=' || line[i] == ',')
}

fn carries_options(line: &str) -> (r: bool)
    ensures
        r == has_options(line@),
{
    let v = to_chars(line);
    assert(v@.skip(0) == line@);
    let mut i: usize = 0;
    while i < v.len() && !text::white(v[i])
        invariant
            i <= v.len(),
            v@ == line@,
            first_white(line@) == i + first_white(v@.skip(i as int)),
            forall|j: int| 0 <= j < i ==> #[trigger] line@[j] != '=' && line@[j] != ',',
        decreases v.len() - i,
    {
        proof {
            assert(v@.skip(i as int).skip(1) == v@.skip(i + 1));
            lemma_first_white(v@.skip(i + 1));
        }
        if v[i] == '=' || v[i] == ',' {
            assert(line@[i as int] == v@[i as int]);
            return true;
        }
        i += 1;
    }
    false
}

proof fn lemma_first_white(s: Seq<char>)
    ensures
        0 <= first_white(s) <= s.len(),
    decreases s.len(),
{
    if s.len() > 0 {
        lemma_first_white(s.skip(1));
    }
}

/// A line that says nothing: blank, or a comment.
pub open spec fn is_idle(line: Seq<char>) -> bool {
    text::trim_of(line).len() == 0 || text::begins(text::trim_of(line), "#"@)
}

/// What the lines from one on say of a key. The first line that cannot be read ends the
/// search, unless the key was found before it.
pub open spec fn authorized_in(
    lines: Seq<Seq<char>>,
    i: int,
    path: Seq<char>,
    data: Seq<u8>,
) -> Result<bool, Seq<char>>
    decreases lines.len() - i,
{
    if i < 0 || i >= lines.len() {
        Ok(false)
    } else if is_idle(lines[i]) {
        authorized_in(lines, i + 1, path, data)
    } else if has_options(text::trim_of(lines[i])) {
        Err(
            "authorized_keys options are not supported in "@ + path + " line "@ + text::dec(i + 1),
        )
    } else {
        match openssh_key(text::trim_of(lines[i])) {
            Err(_) => Err("failed to parse "@ + path + " line "@ + text::dec(i + 1)),
            Ok(key) => if key.0 == data {
                Ok(true)
            } else {
                authorized_in(lines, i + 1, path, data)
            },
        }
    }
}

/// What an authorized_keys file says of a key; a file that does not exist holds none.
pub open spec fn authorized(content: Option<Seq<char>>, path: Seq<char>, data: Seq<u8>) -> Result<
    bool,
    Seq<char>,
> {
    match content {
        None => Ok(false),
        Some(c) => authorized_in(text::split_of(c, '\n'), 0, path, data),
    }
}

fn same_bytes(a: &[u8], b: &[u8]) -> (r: bool)
    ensures
        r == (a@ == b@),
{
    if a.len() != b.len() {
        return false;
    }
    let mut i: usize = 0;
    while i < a.len()
        invariant
            i <= a.len(),
            a.len() == b.len(),
            forall|j: int| 0 <= j < i ==> a@[j] == b@[j],
        decreases a.len() - i,
    {
        if a[i] != b[i] {
            return false;
        }
        i += 1;
    }
    assert(a@ == b@);
    true
}

/// Check whether a public key is in the content of an authorized_keys file. A file that
/// does not exist holds none.
#[verifier::loop_isolation(false)]
pub fn is_authorized_key(content: Option<&str>, path: &str, data: &[u8]) -> (r: Result<
    bool,
    String,
>)
    ensures
        match r {
            Ok(b) => authorized(text::opt_str(content), path@, data@) == Ok::<bool, Seq<char>>(b),
            Err(e) => authorized(text::opt_str(content), path@, data@) == Err::<bool, Seq<char>>(
                e@,
            ),
        },
{
    let content = match content {
        None => {
            return Ok(false);
        },
        Some(c) => c,
    };
    let lines = split(content, '\n');
    let ghost views = text::split_of(content@, '\n');
    let mut i: usize = 0;
    while i < lines.len()
        invariant
            i <= lines.len(),
            views == text::texts(lines@),
            authorized_in(views, 0, path@, data@) == authorized_in(views, i as int, path@, data@),
        decreases lines.len() - i,
    {
        let line = trim(lines[i].as_str());
        assert(views[i as int] == lines@[i as int]@);
        let blank = line.as_str().is_empty();
        if !blank && !starts_with(line.as_str(), "#") {
            let number = decimal(i as u64 + 1);
            if carries_options(line.as_str()) {
                let head = concat3(
                    "authorized_keys options are not supported in ",
                    path,
                    " line ",
                );
                let mut e = head;
                e.append(number.as_str());
                return Err(e);
            }
            match read_openssh(line.as_str()) {
                Err(_) => {
                    let mut e = concat3("failed to parse ", path, " line ");
                    e.append(number.as_str());
                    return Err(e);
                },
                Ok(key) => {
                    if same_bytes(key.data.as_slice(), data) {
                        return Ok(true);
                    }
                },
            }
        }
        i += 1;
    }
    Ok(false)
}

/// What an append does to an authorized_keys file.
#[derive(Debug, PartialEq, Eq)]
pub enum AppendPlan {
    AlreadyPresent,
    /// Append this text.
    Append(String),
}

/// The append of a key to a file. The key must not be there yet.
pub open spec fn append_of(content: Option<Seq<char>>, path: Seq<char>, key: KeyView) -> Result<
    Option<Seq<char>>,
    Seq<char>,
> {
    match authorized(content, path, key.0) {
        Err(e) => Err(e),
        Ok(true) => Ok(None),
        Ok(false) => match key.3 {
            None => Err("failed to serialize public key"@),
            Some(line) => Ok(Some(line + "\n"@)),
        },
    }
}

/// Plan the append of a public key to an authorized_keys file with that content.
pub fn append_authorized_key(content: Option<&str>, path: &str, key: &PublicKey) -> (r: Result<
    AppendPlan,
    String,
>)
    ensures
        match r {
            Ok(AppendPlan::AlreadyPresent) => append_of(text::opt_str(content), path@, key@) == Ok::<
                Option<Seq<char>>,
                Seq<char>,
            >(None),
            Ok(AppendPlan::Append(t)) => append_of(text::opt_str(content), path@, key@) == Ok::<
                Option<Seq<char>>,
                Seq<char>,
            >(Some(t@)),
            Err(e) => append_of(text::opt_str(content), path@, key@) == Err::<
                Option<Seq<char>>,
                Seq<char>,
            >(e@),
        },
{
    match is_authorized_key(content, path, key.data.as_slice()) {
        Err(e) => Err(e),
        Ok(true) => Ok(AppendPlan::AlreadyPresent),
        Ok(false) => match &key.line {
            None => Err("failed to serialize public key".to_owned()),
            Some(line) => {
                let mut t = line.as_str().to_owned();
                t.append("\n");
                Ok(AppendPlan::Append(t))
            },
        },
    }
}

/// The answer to a request to authorize a key.
#[derive(Debug)]
pub struct Bootstrap {
    pub key: PublicKey,
    pub plan: AppendPlan,
}

/// Why a request to authorize a key fails.
#[derive(Debug)]
pub enum BootstrapError {
    InvalidArgument(String),
    Internal(String),
}

/// Plan the answer to a request to authorize a key: its text is read, and the key is appended
/// to the file unless it is there.
pub fn bootstrap_authorize(public_key: &str, content: Option<&str>, path: &str) -> (r: Result<
    Bootstrap,
    BootstrapError,
>)
    ensures
        match openssh_key(text::trim_of(public_key@)) {
            Err(e) => r matches Err(BootstrapError::InvalidArgument(m)) && m@
                == "invalid public key: "@ + e,
            Ok(key) => match append_of(text::opt_str(content), path@, key) {
                Err(e) => r matches Err(BootstrapError::Internal(m)) && m@
                    == "failed to append authorized_keys: "@ + e,
                Ok(None) => r matches Ok(b) && b.key@ == key && b.plan is AlreadyPresent,
                Ok(Some(t)) => r matches Ok(b) && b.key@ == key && (b.plan matches AppendPlan::Append(
                    x,
                ) && x@ == t),
            },
        },
{
    let text = trim(public_key);
    match read_openssh(text.as_str()) {
        Err(e) => {
            let mut m = "invalid public key: ".to_owned();
            m.append(e.as_str());
            Err(BootstrapError::InvalidArgument(m))
        },
        Ok(key) => match append_authorized_key(content, path, &key) {
            Err(e) => {
                let mut m = "failed to append authorized_keys: ".to_owned();
                m.append(e.as_str());
                Err(BootstrapError::Internal(m))
            },
            Ok(plan) => Ok(Bootstrap { key, plan }),
        },
    }
}

/// A key whose line was appended is authorized from then on, so a second request appends
/// nothing. The file ended with a line break, or was empty or missing, and the line reads
/// as the key, on one line and without options.
pub proof fn law_appended_key_is_authorized(
    content: Seq<char>,
    line: Seq<char>,
    path: Seq<char>,
    data: Seq<u8>,
)
    requires
        content.len() == 0 || content.last() == '\n',
        !line.contains('\n'),
        !is_idle(line),
        !has_options(text::trim_of(line)),
    ensures
        authorized(Some(content), path, data) == Ok::<bool, Seq<char>>(false) && (openssh_key(
            text::trim_of(line),
        ) matches Ok(key) && key.0 == data) ==> authorized(
            Some(content + line + "\n"@),
            path,
            data,
        ) == Ok::<bool, Seq<char>>(true),
{
    let before = text::split_of(content, '\n');
    let after = text::split_of(content + line + "\n"@, '\n');
    reveal_strlit("\n");
    assert("\n"@ == seq!['\n']);
    text::lemma_split_appended(content, line + "\n"@, '\n');
    text::lemma_split_first(line, Seq::empty(), '\n');
    assert(line + "\n"@ == line + seq!['\n'] + Seq::<char>::empty());
    assert(content + line + "\n"@ == content + (line + "\n"@));
    let k = before.len() - 1;
    assert(before[k].len() == 0);
    assert(after == before.drop_last() + text::split_of(line + "\n"@, '\n'));
    assert(after[k] == line);
    if authorized_in(before, 0, path, data) == Ok::<bool, Seq<char>>(false) && (openssh_key(
        text::trim_of(line),
    ) matches Ok(key) && key.0 == data) {
        lemma_authorized_prefix(before, after, 0, k, path, data);
    }
}

proof fn lemma_authorized_prefix(
    before: Seq<Seq<char>>,
    after: Seq<Seq<char>>,
    i: int,
    k: int,
    path: Seq<char>,
    data: Seq<u8>,
)
    requires
        0 <= i <= k < before.len(),
        k < after.len(),
        forall|j: int| 0 <= j < k ==> before[j] == after[j],
        authorized_in(before, i, path, data) == Ok::<bool, Seq<char>>(false),
        authorized_in(after, k, path, data) == Ok::<bool, Seq<char>>(true),
    ensures
        authorized_in(after, i, path, data) == Ok::<bool, Seq<char>>(true),
    decreases k - i,
{
    if i < k {
        assert(before[i] == after[i]);
        lemma_authorized_prefix(before, after, i + 1, k, path, data);
    }
}

// ---------------------------------------------------------------------------
// Who is authorized
// ---------------------------------------------------------------------------
/// A line of a key file that can be used: a blank or a comment, or a key without options.
pub open spec fn is_usable(line: Seq<char>) -> bool {
    is_idle(line) || (!has_options(text::trim_of(line)) && openssh_key(text::trim_of(line)) is Ok)
}

/// The line holds this key.
pub open spec fn holds_key(line: Seq<char>, data: Seq<u8>) -> bool {
    !is_idle(line) && (openssh_key(text::trim_of(line)) matches Ok(key) && key.0 == data)
}

/// In a file whose lines can all be used, a key is authorized exactly where one of the lines
/// holds it.
pub proof fn law_listed_keys_are_authorized(
    lines: Seq<Seq<char>>,
    i: int,
    path: Seq<char>,
    data: Seq<u8>,
)
    requires
        0 <= i <= lines.len(),
        forall|j: int| i <= j < lines.len() ==> is_usable(#[trigger] lines[j]),
    ensures
        authorized_in(lines, i, path, data) matches Ok(b) && b == exists|j: int|
            i <= j < lines.len() && holds_key(#[trigger] lines[j], data),
    decreases lines.len() - i,
{
    if i < lines.len() {
        assert(is_usable(lines[i]));
        if holds_key(lines[i], data) {
        } else {
            law_listed_keys_are_authorized(lines, i + 1, path, data);
            if exists|j: int| i <= j < lines.len() && holds_key(#[trigger] lines[j], data) {
                let j = choose|j: int|
                    i <= j < lines.len() && holds_key(#[trigger] lines[j], data);
                assert(j != i);
            }
        }
    }
}

/// A line that cannot be used is an error, unless the key was found before it.
pub proof fn law_bad_lines_are_refused(
    lines: Seq<Seq<char>>,
    i: int,
    bad: int,
    path: Seq<char>,
    data: Seq<u8>,
)
    requires
        0 <= i <= bad < lines.len(),
        !is_usable(lines[bad]),
        forall|j: int|
            i <= j < bad ==> is_usable(#[trigger] lines[j]) && !holds_key(lines[j], data),
    ensures
        authorized_in(lines, i, path, data) is Err,
    decreases bad - i,
{
    if i < bad {
        assert(is_usable(lines[i]));
        law_bad_lines_are_refused(lines, i + 1, bad, path, data);
    }
}

/// Blank lines and comments do not count, and a first word with an equals sign or a comma holds
/// options.
pub proof fn law_lines_are_told_apart(word: Seq<char>, rest: Seq<char>)
    requires
        word.len() > 0,
        forall|i: int| 0 <= i < word.len() ==> !text::is_white(#[trigger] word[i]),
    ensures
        has_options(word + seq![' '] + rest) == (word.contains('=') || word.contains(',')),
        has_options(word) == (word.contains('=') || word.contains(',')),
        word[0] == '#' ==> is_idle(word),
        word[0] != '#' ==> !is_idle(word),
        is_idle(Seq::empty()),
{
    let line = word + seq![' '] + rest;
    let n = word.len() as int;
    lemma_first_word(word, seq![' '] + rest);
    assert(word + (seq![' '] + rest) =~= line);
    lemma_first_word(word, Seq::empty());
    assert(word + Seq::<char>::empty() =~= word);
    assert forall|c: char| (c == '=' || c == ',') && word.contains(c) implies has_options(line)
        && has_options(word) by {
        let i = choose|i: int| 0 <= i < word.len() && word[i] == c;
        assert(line[i] == c);
    }
    if has_options(line) {
        let i = choose|i: int|
            0 <= i < first_white(line) && (#[trigger] line[i] == '=' || line[i] == ',');
        assert(word[i] == line[i]);
    }
    if has_options(word) {
        let i = choose|i: int|
            0 <= i < first_white(word) && (#[trigger] word[i] == '=' || word[i] == ',');
        assert(word.contains(word[i]));
    }
    text::law_trimming_removes_the_white_space_around(Seq::empty(), word, Seq::empty());
    text::law_trimming_removes_the_white_space_around(
        Seq::empty(),
        Seq::<char>::empty(),
        Seq::empty(),
    );
    reveal_strlit("#");
    assert("#"@ =~= seq!['#']);
    if word[0] == '#' {
        assert(word.take(1) =~= seq!['#']);
    } else if text::begins(word, "#"@) {
        assert(word.take(1)[0] == word[0]);
    }
}

proof fn lemma_first_word(word: Seq<char>, rest: Seq<char>)
    requires
        forall|i: int| 0 <= i < word.len() ==> !text::is_white(#[trigger] word[i]),
        rest.len() > 0 ==> rest[0] == ' ',
    ensures
        first_white(word + rest) == word.len(),
    decreases word.len(),
{
    let s = word + rest;
    if word.len() == 0 {
        assert(s =~= rest);
    } else {
        assert(s[0] == word[0]);
        assert(s.skip(1) =~= word.skip(1) + rest);
        assert forall|i: int| 0 <= i < word.skip(1).len() implies !text::is_white(
            #[trigger] word.skip(1)[i],
        ) by {
            assert(word.skip(1)[i] == word[i + 1]);
        }
        lemma_first_word(word.skip(1), rest);
    }
}

/// A key is written to the file only where it is not authorized yet, as its own line.
pub proof fn law_known_keys_are_not_written_again(
    content: Option<Seq<char>>,
    path: Seq<char>,
    key: KeyView,
)
    ensures
        match authorized(content, path, key.0) {
            Ok(true) => append_of(content, path, key) == Ok::<Option<Seq<char>>, Seq<char>>(None),
            Ok(false) => match key.3 {
                Some(line) => append_of(content, path, key) == Ok::<
                    Option<Seq<char>>,
                    Seq<char>,
                >(Some(line + seq!['\n'])),
                None => append_of(content, path, key) is Err,
            },
            Err(e) => append_of(content, path, key) == Err::<Option<Seq<char>>, Seq<char>>(e),
        },
        content is None ==> authorized(content, path, key.0) == Ok::<bool, Seq<char>>(false),
{
    reveal_strlit("\n");
    assert("\n"@ =~= seq!['\n']);
}

} // verus!
