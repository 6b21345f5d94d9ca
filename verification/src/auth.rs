//! Authentication: remote addresses, host keys, one-time codes, prompts.
use crate::gateway;
use crate::gateway::ascii_lowercase;
use crate::keys::PublicKey;
use crate::search;
use crate::search::chars_after_last;
use crate::text;
use crate::text::{
    concat3, decimal, from_chars, is_blank, parse_unsigned, same, split, starts_with,
    to_chars, trim,
};
use vstd::prelude::*;

verus! {

pub const DEFAULT_REMOTE_PORT: u16 = 2222;

// ---------------------------------------------------------------------------
// Remote addresses
// ---------------------------------------------------------------------------
/// A remote address with its user.
#[derive(Debug, PartialEq, Eq)]
pub struct RemoteTarget {
    pub host: String,
    pub port: u16,
    pub user: String,
}

/// The mathematical counterpart of [`RemoteTarget`].
#[verifier::ext_equal]
pub struct TargetView {
    pub host: Seq<char>,
    pub port: int,
    pub user: Seq<char>,
}

impl View for RemoteTarget {
    type V = TargetView;

    open spec fn view(&self) -> TargetView {
        TargetView { host: self.host@, port: self.port as int, user: self.user@ }
    }
}

/// `host:port`.
pub open spec fn address_of(host: Seq<char>, port: int) -> Seq<char> {
    host + ":"@ + text::dec(port)
}

impl RemoteTarget {
    pub fn address(&self) -> (r: String)
        ensures
            r@ == address_of(self.host@, self.port as int),
    {
        let port = decimal(self.port as u64);
        concat3(self.host.as_str(), ":", port.as_str())
    }
}

/// User and rest of an address, split at the last `@`; without a user the default one.
pub open spec fn split_user(input: Seq<char>) -> (Seq<char>, Seq<char>) {
    let n = search::last_index(input, '@');
    if n > 0 {
        (input.take(n), input.skip(n + 1))
    } else {
        ("xho"@, input)
    }
}

/// What an address means: `[user@]host[:port]`.
pub open spec fn remote_target(input: Seq<char>) -> Result<TargetView, Seq<char>> {
    let (user, rest) = split_user(input);
    let n = search::last_index(rest, ':');
    let with_port = n > 0 && n + 1 < rest.len();
    let port = text::unsigned_of(rest.skip(n + 1), 0xffff);
    let host = if with_port {
        rest.take(n)
    } else {
        rest
    };
    if text::trim_of(input).len() == 0 {
        Err("remote target must not be empty"@)
    } else if with_port && port is None {
        Err("invalid remote port in target "@ + input)
    } else if text::trim_of(host).len() == 0 {
        Err("remote host must not be empty"@)
    } else {
        Ok(
            TargetView {
                host,
                port: if with_port {
                    port->0
                } else {
                    DEFAULT_REMOTE_PORT as int
                },
                user,
            },
        )
    }
}

/// Parse a remote target of the form `[user@]host[:port]`. The user defaults to `xho`,
/// the port to 2222.
pub fn parse_remote_target(input: &str) -> (r: Result<RemoteTarget, String>)
    ensures
        match r {
            Ok(t) => remote_target(input@) == Ok::<TargetView, Seq<char>>(t@),
            Err(e) => remote_target(input@) == Err::<TargetView, Seq<char>>(e@),
        },
{
    if is_blank(input) {
        return Err("remote target must not be empty".to_owned());
    }
    let v = to_chars(input);
    let at: usize = chars_after_last(v.as_slice(), '@');
    let (user, start): (String, usize) = if at > 1 {
        let head = vstd::slice::slice_subrange(v.as_slice(), 0, at - 1);
        assert(head@ == input@.take(at - 1));
        (from_chars(head), at)
    } else {
        ("xho".to_owned(), 0)
    };
    let rest = vstd::slice::slice_subrange(v.as_slice(), start, v.len());
    assert(rest@ == split_user(input@).1);
    let colon: usize = chars_after_last(rest, ':');
    let (host, port): (String, u16) = if colon > 1 && colon < rest.len() {
        let digits = vstd::slice::slice_subrange(rest, colon, rest.len());
        assert(digits@ == rest@.skip(colon as int));
        match parse_unsigned(digits, 0xffff) {
            None => {
                let mut e = "invalid remote port in target ".to_owned();
                e.append(input);
                return Err(e);
            },
            Some(port) => {
                let head = vstd::slice::slice_subrange(rest, 0, colon - 1);
                assert(head@ == rest@.take(colon - 1));
                (from_chars(head), port as u16)
            },
        }
    } else {
        (from_chars(rest), 2222)
    };
    if is_blank(host.as_str()) {
        return Err("remote host must not be empty".to_owned());
    }
    Ok(RemoteTarget { host, port, user })
}

/// A target that is written out as `user@host:port` reads as that target.
pub proof fn law_written_target_reads_back(t: TargetView)
    requires
        t.user.len() > 0,
        text::trim_of(t.host).len() > 0,
        !t.host.contains('@'),
        0 <= t.port <= 0xffff,
    ensures
        remote_target(t.user + "@"@ + address_of(t.host, t.port)) == Ok::<TargetView, Seq<char>>(t),
{
    let digits = text::dec(t.port);
    let rest = address_of(t.host, t.port);
    let input = t.user + "@"@ + rest;
    text::lemma_decimal_reads_back(t.port);
    reveal_strlit("@");
    reveal_strlit(":");
    assert("@"@ == seq!['@']);
    assert(":"@ == seq![':']);
    let n = t.user.len() as int;
    let m = t.host.len() as int;
    assert(input[n] == '@');
    text::lemma_trim_keeps(input, n);
    assert forall|j: int| n < j < input.len() implies input[j] != '@' by {
        let q = j - n - 1;
        assert(input[j] == rest[q]);
        if q < m {
            assert(rest[q] == t.host[q]);
        } else if q > m {
            assert(rest[q] == digits[q - m - 1]);
            assert(text::is_digit(digits[q - m - 1]));
        }
    }
    search::lemma_last_index_is(input, '@', n);
    assert(input.take(n) == t.user);
    assert(input.skip(n + 1) == rest);
    assert(rest[m] == ':');
    assert forall|j: int| m < j < rest.len() implies rest[j] != ':' by {
        assert(rest[j] == digits[j - m - 1]);
        assert(text::is_digit(digits[j - m - 1]));
    }
    search::lemma_last_index_is(rest, ':', m);
    assert(rest.skip(m + 1) == digits);
    assert(rest.take(m) == t.host);
    assert(text::is_digit(digits[0]));
    if m == 0 {
        assert(t.host == Seq::<char>::empty());
        assert(text::trim_start_of(t.host) == t.host);
    }
}

// ---------------------------------------------------------------------------
// Host keys
// ---------------------------------------------------------------------------
/// What is known of a server's host key.
#[derive(Debug, PartialEq, Eq)]
pub enum KnownHostState {
    /// The key matches a recorded one.
    Known,
    /// The host was never seen before.
    Unknown { algorithm: String, fingerprint: String },
    /// The key differs from the recorded one.
    Changed { algorithm: String, fingerprint: String },
}

/// The outcome of the search in the file of known hosts.
#[derive(Clone, Copy, Debug, PartialEq, Eq, Structural)]
pub enum KnownHostLookup {
    Match,
    NoEntry,
    KeyChanged,
    /// The file could not be read or understood.
    Failed,
}

/// The state of a host key, by the search in the file of known hosts. A file that cannot
/// be read counts as one without the host.
pub fn inspect_known_host(lookup: KnownHostLookup, key: &PublicKey) -> (r: KnownHostState)
    ensures
        match lookup {
            KnownHostLookup::Match => r is Known,
            KnownHostLookup::KeyChanged => r matches KnownHostState::Changed {
                algorithm,
                fingerprint,
            } && algorithm@ == key.algorithm@ && fingerprint@ == key.fingerprint@,
            _ => r matches KnownHostState::Unknown { algorithm, fingerprint } && algorithm@
                == key.algorithm@ && fingerprint@ == key.fingerprint@,
        },
{
    match lookup {
        KnownHostLookup::Match => KnownHostState::Known,
        KnownHostLookup::KeyChanged => KnownHostState::Changed {
            algorithm: key.algorithm.as_str().to_owned(),
            fingerprint: key.fingerprint.as_str().to_owned(),
        },
        KnownHostLookup::NoEntry | KnownHostLookup::Failed => KnownHostState::Unknown {
            algorithm: key.algorithm.as_str().to_owned(),
            fingerprint: key.fingerprint.as_str().to_owned(),
        },
    }
}

// ---------------------------------------------------------------------------
// Paths
// ---------------------------------------------------------------------------
/// A path with a leading tilde replaced by the home directory.
pub open spec fn expanded(path: Seq<char>, home: Option<Seq<char>>) -> Result<
    Seq<char>,
    Seq<char>,
> {
    let tilde = path == "~"@ || text::begins(path, "~/"@);
    if !tilde {
        Ok(path)
    } else {
        match home {
            Some(h) => Ok(h + path.skip(1)),
            None => Err("the home directory is not known"@),
        }
    }
}

pub fn expand_tilde(path: &str, home: Option<&str>) -> (r: Result<String, String>)
    ensures
        match r {
            Ok(p) => expanded(path@, text::opt_str(home)) == Ok::<Seq<char>, Seq<char>>(p@),
            Err(e) => expanded(path@, text::opt_str(home)) == Err::<Seq<char>, Seq<char>>(e@),
        },
{
    if !same(path, "~") && !starts_with(path, "~/") {
        return Ok(path.to_owned());
    }
    match home {
        Some(h) => {
            proof {
                reveal_strlit("~");
                reveal_strlit("~/");
            }
            let v = to_chars(path);
            let rest = path.substring_char(1, v.len());
            assert(rest@ == path@.skip(1));
            let mut r = h.to_owned();
            r.append(rest);
            Ok(r)
        },
        None => Err("the home directory is not known".to_owned()),
    }
}

/// The identity file and the file of known hosts, with their defaults and without tildes.
pub open spec fn normalized(
    identity: Option<Seq<char>>,
    known_hosts: Option<Seq<char>>,
    home: Option<Seq<char>>,
    default_known_hosts: Seq<char>,
) -> Result<(Seq<char>, Seq<char>), Seq<char>> {
    let id = expanded(
        match identity {
            Some(p) => p,
            None => "~/.ssh/id_ed25519"@,
        },
        home,
    );
    let kh = expanded(
        match known_hosts {
            Some(p) => p,
            None => default_known_hosts,
        },
        home,
    );
    match (id, kh) {
        (Err(e), _) => Err(e),
        (Ok(_), Err(e)) => Err(e),
        (Ok(a), Ok(b)) => Ok((a, b)),
    }
}

/// Normalize the identity file and the file of known hosts, expanding a leading tilde.
/// They fall back to `~/.ssh/id_ed25519` and the given default.
pub fn normalize_paths(
    identity_file: Option<&str>,
    known_hosts_path: Option<&str>,
    home: Option<&str>,
    default_known_hosts: &str,
) -> (r: Result<(String, String), String>)
    ensures
        match r {
            Ok((a, b)) => normalized(
                text::opt_str(identity_file),
                text::opt_str(known_hosts_path),
                text::opt_str(home),
                default_known_hosts@,
            ) == Ok::<(Seq<char>, Seq<char>), Seq<char>>((a@, b@)),
            Err(e) => normalized(
                text::opt_str(identity_file),
                text::opt_str(known_hosts_path),
                text::opt_str(home),
                default_known_hosts@,
            ) == Err::<(Seq<char>, Seq<char>), Seq<char>>(e@),
        },
{
    let id = match identity_file {
        Some(p) => p,
        None => "~/.ssh/id_ed25519",
    };
    let kh = match known_hosts_path {
        Some(p) => p,
        None => default_known_hosts,
    };
    match expand_tilde(id, home) {
        Err(e) => Err(e),
        Ok(a) => match expand_tilde(kh, home) {
            Err(e) => Err(e),
            Ok(b) => Ok((a, b)),
        },
    }
}

// ---------------------------------------------------------------------------
// One-time codes
// ---------------------------------------------------------------------------
/// How one-time codes are made.
#[derive(Debug)]
pub struct MfaConfig {
    pub totp_secret_base32: String,
    pub digits: u32,
    pub period: u64,
    pub digest: String,
}

/// The bytes that unpadded base32 text stands for, if it is such text.
pub uninterp spec fn base32_bytes(input: Seq<u8>) -> Option<Seq<u8>>;

/// Calls `BASE32_NOPAD.decode` of the data-encoding crate, whose result depends on the
/// input alone.
#[verifier::external_body]
fn decode_base32(input: &[u8]) -> (r: Option<Vec<u8>>)
    ensures
        match r {
            Some(v) => base32_bytes(input@) == Some(v@),
            None => base32_bytes(input@) is None,
        },
{
    data_encoding::BASE32_NOPAD.decode(input).ok()
}

/// The HMAC with SHA-1 of a message under a key.
pub uninterp spec fn hmac_sha1(key: Seq<u8>, message: Seq<u8>) -> Seq<u8>;

/// Calls the hmac crate's `Hmac` with the sha1 crate's `Sha1` on one message. Keys of any
/// length are taken; the code has 20 bytes and depends on key and message alone.
#[verifier::external_body]
fn hmac_sha1_of(key: &[u8], message: &[u8]) -> (r: Vec<u8>)
    ensures
        r@ == hmac_sha1(key@, message@),
        r@.len() == 20,
{
    let mut mac = <hmac::Hmac<sha1::Sha1> as hmac::KeyInit>::new_from_slice(key)
        .expect("keys of any length are accepted");
    hmac::Mac::update(&mut mac, message);
    hmac::Mac::finalize(mac).into_bytes().to_vec()
}

/// Calls `SystemTime::now` and `duration_since(UNIX_EPOCH)` of std: the seconds since the
/// epoch by the machine's clock, none if the clock stands before it.
#[verifier::external_body]
fn unix_seconds() -> (r: Option<u64>) {
    std::time::SystemTime::now().duration_since(std::time::UNIX_EPOCH).ok().map(|d| d.as_secs())
}

/// The eight bytes of a number, the most significant first.
pub open spec fn be_bytes(n: int) -> Seq<u8> {
    Seq::new(8, |i: int| ((n / vstd::arithmetic::power::pow(256, (7 - i) as nat)) % 256) as u8)
}

fn to_be_bytes(n: u64) -> (r: Vec<u8>)
    ensures
        r@ == be_bytes(n as int),
{
    proof {
        reveal_with_fuel(vstd::arithmetic::power::pow, 8);
    }
    let mut r: Vec<u8> = Vec::new();
    r.push((n / 0x100000000000000 % 256) as u8);
    r.push((n / 0x1000000000000 % 256) as u8);
    r.push((n / 0x10000000000 % 256) as u8);
    r.push((n / 0x100000000 % 256) as u8);
    r.push((n / 0x1000000 % 256) as u8);
    r.push((n / 0x10000 % 256) as u8);
    r.push((n / 0x100 % 256) as u8);
    r.push((n % 256) as u8);
    assert(r@ == be_bytes(n as int));
    r
}

/// The number that a code of 20 bytes is truncated to: 31 bits from the place that its last
/// four bits name.
pub open spec fn truncated(digest: Seq<u8>) -> int {
    let o = (digest[19] % 16) as int;
    (digest[o] % 128) * 0x1000000 + digest[o + 1] * 0x10000 + digest[o + 2] * 0x100 + digest[o + 3]
}

/// A number in decimal, with zeros in front up to a width.
pub open spec fn zero_padded(n: int, width: int) -> Seq<char> {
    let d = text::dec(n);
    if d.len() >= width {
        d
    } else {
        Seq::new((width - d.len()) as nat, |i: int| '0') + d
    }
}

/// The code that a digest stands for.
pub open spec fn code_of(digest: Seq<u8>, digits: int) -> Seq<char> {
    zero_padded(
        truncated(digest) % vstd::arithmetic::power::pow(10, digits as nat),
        digits,
    )
}

fn power_of_ten(n: u32) -> (r: u32)
    requires
        n <= 9,
    ensures
        r == vstd::arithmetic::power::pow(10, n as nat),
        r >= 1,
{
    proof {
        reveal_with_fuel(vstd::arithmetic::power::pow, 10);
    }
    let mut r: u32 = 1;
    let mut i: u32 = 0;
    while i < n
        invariant
            i <= n <= 9,
            r == vstd::arithmetic::power::pow(10, i as nat),
            1 <= r <= 1_000_000_000,
            i < 9 ==> r <= 100_000_000,
        decreases n - i,
    {
        proof {
            reveal_with_fuel(vstd::arithmetic::power::pow, 10);
            assert(r * 10 == vstd::arithmetic::power::pow(10, (i + 1) as nat));
        }
        r = r * 10;
        i += 1;
        proof {
            if i < 9 {
                assert(vstd::arithmetic::power::pow(10, i as nat) <= 100_000_000) by {
                    reveal_with_fuel(vstd::arithmetic::power::pow, 10);
                }
            }
        }
    }
    r
}

/// The one-time code that a digest stands for.
pub fn code_from_digest(digest: &[u8], digits: u32) -> (r: String)
    requires
        digest@.len() == 20,
        digits <= 9,
    ensures
        r@ == code_of(digest@, digits as int),
{
    let last = digest[19];
    let offset: usize = (last & 0x0f) as usize;
    assert(last & 0x0f == last % 16) by (bit_vector);
    let d0: u32 = digest[offset] as u32;
    let d1: u32 = digest[offset + 1] as u32;
    let d2: u32 = digest[offset + 2] as u32;
    let d3: u32 = digest[offset + 3] as u32;
    let value: u32 = ((d0 & 0x7f) << 24) | (d1 << 16) | (d2 << 8) | d3;
    assert(value == (d0 % 128) * 0x1000000 + d1 * 0x10000 + d2 * 0x100 + d3) by (bit_vector)
        requires
            d0 < 256,
            d1 < 256,
            d2 < 256,
            d3 < 256,
            value == ((d0 & 0x7f) << 24) | (d1 << 16) | (d2 << 8) | d3,
    ;
    let modulo: u32 = power_of_ten(digits);
    let code = decimal((value % modulo) as u64);
    let v = to_chars(code.as_str());
    let mut r = String::new();
    let mut i: usize = v.len();
    while i < digits as usize
        invariant
            v.len() <= i,
            v.len() >= digits ==> i == v.len(),
            v.len() < digits ==> i <= digits,
            r@ == Seq::new((i - v.len()) as nat, |j: int| '0'),
        decreases digits - i,
    {
        r.push('0');
        i += 1;
        assert(r@ == Seq::new((i - v.len()) as nat, |j: int| '0'));
    }
    r.append(code.as_str());
    assert(v.len() >= digits ==> r@ == code@);
    r
}

/// The secret of a configuration.
pub open spec fn secret_of(config: MfaConfig) -> Result<Seq<u8>, Seq<char>> {
    if gateway::lowered(config.digest@) != "sha1"@ {
        Err("only sha1 TOTP is supported"@)
    } else {
        match base32_bytes(vstd::utf8::encode_utf8(config.totp_secret_base32@)) {
            None => Err("invalid base32 TOTP secret"@),
            Some(secret) => Ok(secret),
        }
    }
}

/// The one-time code of a secret at a time, in seconds since the epoch.
pub open spec fn totp(secret: Seq<u8>, config: MfaConfig, secs: int) -> Seq<char> {
    code_of(
        hmac_sha1(secret, be_bytes(secs / config.period as int)),
        config.digits as int,
    )
}

/// The text is the one-time code of a secret at some time.
pub open spec fn is_totp(code: Seq<char>, secret: Seq<u8>, config: MfaConfig) -> bool {
    exists|secs: int| 0 <= secs <= u64::MAX && code == #[trigger] totp(secret, config, secs)
}

fn totp_secret(config: &MfaConfig) -> (r: Result<Vec<u8>, String>)
    ensures
        match r {
            Ok(secret) => secret_of(*config) == Ok::<Seq<u8>, Seq<char>>(secret@),
            Err(e) => secret_of(*config) == Err::<Seq<u8>, Seq<char>>(e@),
        },
{
    let digest_name = ascii_lowercase(config.digest.as_str());
    if !same(digest_name.as_str(), "sha1") {
        return Err("only sha1 TOTP is supported".to_owned());
    }
    let encoded = config.totp_secret_base32.as_str().as_bytes_vec();
    match decode_base32(encoded.as_slice()) {
        None => Err("invalid base32 TOTP secret".to_owned()),
        Some(secret) => Ok(secret),
    }
}

fn totp_code(secret: &[u8], config: &MfaConfig, secs: u64) -> (r: String)
    requires
        config.period > 0,
        config.digits <= 9,
    ensures
        r@ == totp(secret@, *config, secs as int),
{
    let message = to_be_bytes(secs / config.period);
    let digest = hmac_sha1_of(secret, message.as_slice());
    code_from_digest(digest.as_slice(), config.digits)
}

/// The one-time code at a time, in seconds since the epoch.
pub fn totp_at(config: &MfaConfig, secs: u64) -> (r: Result<String, String>)
    requires
        config.period > 0,
        config.digits <= 9,
    ensures
        match (secret_of(*config), r) {
            (Ok(secret), Ok(code)) => code@ == totp(secret, *config, secs as int),
            (Err(e), Err(x)) => x@ == e,
            _ => false,
        },
{
    match totp_secret(config) {
        Err(e) => Err(e),
        Ok(secret) => Ok(totp_code(secret.as_slice(), config, secs)),
    }
}

/// Generate the one-time code of the present moment. Only SHA-1 is supported.
pub fn generate_totp(config: &MfaConfig) -> (r: Result<String, String>)
    requires
        config.period > 0,
        config.digits <= 9,
    ensures
        secret_of(*config) matches Err(e) ==> r matches Err(x) && x@ == e,
        secret_of(*config) matches Ok(secret) ==> match r {
            Ok(code) => is_totp(code@, secret, *config),
            Err(x) => x@ == "system clock is before unix epoch"@,
        },
{
    let secret = match totp_secret(config) {
        Err(e) => {
            return Err(e);
        },
        Ok(secret) => secret,
    };
    let secs: u64 = match unix_seconds() {
        None => {
            return Err("system clock is before unix epoch".to_owned());
        },
        Some(secs) => secs,
    };
    let code = totp_code(secret.as_slice(), config, secs);
    assert(code@ == totp(secret@, *config, secs as int));
    assert(is_totp(code@, secret@, *config));
    Ok(code)
}

/// A one-time code has as many digits as configured, all decimal.
pub proof fn law_code_has_configured_length(digest: Seq<u8>, digits: int)
    requires
        digest.len() == 20,
        1 <= digits <= 9,
    ensures
        code_of(digest, digits).len() == digits,
        text::all_digits(code_of(digest, digits)),
{
    let m = vstd::arithmetic::power::pow(10, digits as nat);
    assert(m > 0) by {
        vstd::arithmetic::power::lemma_pow_positive(10, digits as nat);
    }
    let o = (digest[19] % 16) as int;
    let v = truncated(digest);
    assert(v >= 0);
    let n = v % m;
    assert(0 <= n < m) by (nonlinear_arith)
        requires
            n == v % m,
            m > 0,
    ;
    lemma_dec_len(n, digits as nat);
    text::lemma_decimal_reads_back(n);
    let d = text::dec(n);
    let code = code_of(digest, digits);
    assert forall|i: int| 0 <= i < code.len() implies text::is_digit(#[trigger] code[i]) by {
        if i >= code.len() - d.len() {
            assert(code[i] == d[i - (code.len() - d.len())]);
        }
    }
}

proof fn lemma_dec_len(n: int, k: nat)
    requires
        0 <= n < vstd::arithmetic::power::pow(10, k),
        k >= 1,
    ensures
        1 <= text::dec(n).len() <= k,
    decreases k,
{
    reveal_with_fuel(vstd::arithmetic::power::pow, 2);
    if n >= 10 {
        let p = vstd::arithmetic::power::pow(10, (k - 1) as nat);
        assert(vstd::arithmetic::power::pow(10, k) == 10 * p);
        if k == 1 {
            assert(p == 1);
        } else {
            lemma_dec_len(n / 10, (k - 1) as nat);
        }
    }
}

// ---------------------------------------------------------------------------
// Keyboard-interactive prompts
// ---------------------------------------------------------------------------
/// A question to the user.
#[derive(Debug)]
pub struct AuthPrompt {
    /// Which gateway asks.
    pub gateway_name: String,
    /// The question.
    pub message: String,
    /// Whether the answer should be hidden.
    pub secret: bool,
}

/// How a server answered an authentication request.
pub enum AuthReply {
    Success,
    Failure { partial_success: bool, keyboard_interactive_remains: bool },
}

/// What to do after public-key authentication.
pub enum KeyAuthStep {
    Done,
    KeyboardInteractive,
    Fail(String),
}

/// A partial success that leaves keyboard-interactive authentication goes on with it;
/// every other failure ends the attempt.
pub fn after_public_key(reply: AuthReply, user: &str) -> (r: KeyAuthStep)
    ensures
        match reply {
            AuthReply::Success => r is Done,
            AuthReply::Failure { partial_success, keyboard_interactive_remains } => {
                if partial_success && keyboard_interactive_remains {
                    r is KeyboardInteractive
                } else {
                    r matches KeyAuthStep::Fail(e) && e@
                        == "SSH publickey authentication failed for "@ + user@
                }
            },
        },
{
    match reply {
        AuthReply::Success => KeyAuthStep::Done,
        AuthReply::Failure { partial_success, keyboard_interactive_remains } => {
            if partial_success && keyboard_interactive_remains {
                KeyAuthStep::KeyboardInteractive
            } else {
                let mut e = "SSH publickey authentication failed for ".to_owned();
                e.append(user);
                KeyAuthStep::Fail(e)
            }
        },
    }
}

/// After password authentication there is success or the end.
pub fn after_password(success: bool, user: &str) -> (r: Result<(), String>)
    ensures
        r is Ok <==> success,
        r matches Err(e) ==> e@ == "SSH password authentication failed for "@ + user@,
{
    if success {
        Ok(())
    } else {
        let mut e = "SSH password authentication failed for ".to_owned();
        e.append(user);
        Err(e)
    }
}

/// Where the answer to a prompt comes from.
pub enum PromptAnswer {
    /// A one-time code of the configuration.
    Totp,
    /// The user.
    Ask(AuthPrompt),
    Fail(String),
}

/// A configured secret answers every prompt with a one-time code; otherwise the user is
/// asked, and without anyone to ask the authentication fails.
pub fn answer_prompt(
    mfa: Option<&MfaConfig>,
    can_ask: bool,
    gateway_name: &str,
    prompt: &str,
    echo: bool,
) -> (r: PromptAnswer)
    ensures
        if mfa matches Some(m) && m.totp_secret_base32@.len() > 0 {
            r is Totp
        } else if can_ask {
            r matches PromptAnswer::Ask(p) && p.gateway_name@ == gateway_name@ && p.message@
                == prompt@ && p.secret == !echo
        } else {
            r matches PromptAnswer::Fail(e) && e@
                == "keyboard-interactive MFA requires an auth prompt handler"@
        },
{
    if let Some(m) = mfa {
        if !m.totp_secret_base32.as_str().is_empty() {
            return PromptAnswer::Totp;
        }
    }
    if can_ask {
        PromptAnswer::Ask(
            AuthPrompt {
                gateway_name: gateway_name.to_owned(),
                message: prompt.to_owned(),
                secret: !echo,
            },
        )
    } else {
        PromptAnswer::Fail("keyboard-interactive MFA requires an auth prompt handler".to_owned())
    }
}

/// A step of keyboard-interactive authentication.
pub enum InteractiveReply {
    Success,
    Failure,
    /// The server asks this many questions.
    InfoRequest(usize),
}

/// What to do in keyboard-interactive authentication.
pub enum InteractiveStep {
    Done,
    Fail(String),
    /// Answer that many prompts and send the answers.
    Respond(usize),
}

pub fn after_keyboard_interactive(reply: InteractiveReply, user: &str) -> (r: InteractiveStep)
    ensures
        match reply {
            InteractiveReply::Success => r is Done,
            InteractiveReply::Failure => r matches InteractiveStep::Fail(e) && e@
                == "SSH keyboard-interactive authentication failed for "@ + user@,
            InteractiveReply::InfoRequest(n) => r == InteractiveStep::Respond(n),
        },
{
    match reply {
        InteractiveReply::Success => InteractiveStep::Done,
        InteractiveReply::Failure => {
            let mut e = "SSH keyboard-interactive authentication failed for ".to_owned();
            e.append(user);
            InteractiveStep::Fail(e)
        },
        InteractiveReply::InfoRequest(n) => InteractiveStep::Respond(n),
    }
}

// ---------------------------------------------------------------------------
// Legacy signatures
// ---------------------------------------------------------------------------
/// One of the comma-separated algorithms is `ssh-rsa`, plain or with a plus sign.
pub open spec fn names_ssh_rsa(value: Seq<char>) -> bool {
    exists|i: int|
        #![trigger text::split_of(value, ',')[i]]
        0 <= i < text::split_of(value, ',').len() && (text::trim_of(text::split_of(value, ',')[i])
            == "ssh-rsa"@ || text::trim_of(text::split_of(value, ',')[i]) == "+ssh-rsa"@)
}

/// Whether the accepted algorithms ask for legacy RSA signatures.
#[verifier::loop_isolation(false)]
pub fn wants_legacy_ssh_rsa(pubkey_accepted_algorithms: Option<&str>) -> (r: bool)
    ensures
        r == (pubkey_accepted_algorithms matches Some(v) && names_ssh_rsa(v@)),
{
    let value = match pubkey_accepted_algorithms {
        Some(v) => v,
        None => {
            return false;
        },
    };
    let items = split(value, ',');
    let ghost views = text::split_of(value@, ',');
    let mut i: usize = 0;
    while i < items.len()
        invariant
            i <= items.len(),
            views == text::texts(items@),
            views == text::split_of(value@, ','),
            forall|j: int|
                0 <= j < i ==> text::trim_of(#[trigger] views[j]) != "ssh-rsa"@ && text::trim_of(
                    views[j],
                ) != "+ssh-rsa"@,
        decreases items.len() - i,
    {
        let item = trim(items[i].as_str());
        assert(views[i as int] == items@[i as int]@);
        if same(item.as_str(), "ssh-rsa") || same(item.as_str(), "+ssh-rsa") {
            assert(names_ssh_rsa(value@)) by {
                let item = text::split_of(value@, ',')[i as int];
            }
            return true;
        }
        i += 1;
    }
    false
}

// ---------------------------------------------------------------------------
// What targets, paths and codes mean
// ---------------------------------------------------------------------------
/// A target without a user is that of the user `xho`, and one without a port is at port 2222.
/// What is written is taken as it is.
pub proof fn law_targets_have_defaults(user: Seq<char>, host: Seq<char>, port: int)
    requires
        user.len() > 0,
        text::trim_of(host).len() > 0,
        !host.contains('@'),
        !host.contains(':'),
        0 <= port <= 0xffff,
    ensures
        ({
            let at = seq!['@'];
            let colon = seq![':'];
            let is = |input: Seq<char>, u: Seq<char>, p: int|
                remote_target(input) == Ok::<TargetView, Seq<char>>(
                    TargetView { host, port: p, user: u },
                );
            &&& is(host, "xho"@, 2222)
            &&& is(user + at + host, user, 2222)
            &&& is(host + colon + text::dec(port), "xho"@, port)
        }),
{
    let n = user.len() as int;
    let m = host.len() as int;
    let digits = text::dec(port);
    text::lemma_decimal_reads_back(port);
    assert forall|j: int| 0 <= j < m implies host[j] != '@' && host[j] != ':' by {
        assert(host.contains(host[j]));
    }
    if m == 0 {
        assert(text::trim_start_of(host) == host);
    }
    search::lemma_last_index_is(host, '@', -1);
    search::lemma_last_index_is(host, ':', -1);
    let named = user + seq!['@'] + host;
    assert(named[n] == '@');
    text::lemma_trim_keeps(named, n);
    assert forall|j: int| n < j < named.len() implies named[j] != '@' by {
        assert(named[j] == host[j - n - 1]);
    }
    search::lemma_last_index_is(named, '@', n);
    assert(named.take(n) =~= user);
    assert(named.skip(n + 1) =~= host);
    let ported = host + seq![':'] + digits;
    assert(ported[m] == ':');
    text::lemma_trim_keeps(ported, m);
    assert forall|j: int| 0 <= j < ported.len() implies ported[j] != '@' by {
        if j < m {
            assert(ported[j] == host[j]);
        } else if j > m {
            assert(ported[j] == digits[j - m - 1]);
            assert(text::is_digit(digits[j - m - 1]));
        }
    }
    search::lemma_last_index_is(ported, '@', -1);
    assert forall|j: int| m < j < ported.len() implies ported[j] != ':' by {
        assert(ported[j] == digits[j - m - 1]);
        assert(text::is_digit(digits[j - m - 1]));
    }
    search::lemma_last_index_is(ported, ':', m);
    assert(ported.take(m) =~= host);
    assert(ported.skip(m + 1) =~= digits);
    assert(text::is_digit(digits[0]));
}

/// A blank target is none, and neither is one whose port is no number that a port can have.
pub proof fn law_bad_targets_are_refused(input: Seq<char>, host: Seq<char>, port: Seq<char>)
    requires
        host.len() > 0,
        port.len() > 0,
        !host.contains('@'),
        !port.contains('@'),
        !port.contains(':'),
        text::unsigned_of(port, 0xffff) is None,
    ensures
        text::trim_of(input).len() == 0 ==> remote_target(input) is Err,
        remote_target(host + seq![':'] + port) is Err,
{
    let s = host + seq![':'] + port;
    let m = host.len() as int;
    assert forall|j: int| 0 <= j < s.len() implies s[j] != '@' by {
        if j < m {
            assert(host.contains(host[j]));
        } else if j > m {
            assert(port.contains(port[j - m - 1]));
        }
    }
    search::lemma_last_index_is(s, '@', -1);
    assert forall|j: int| m < j < s.len() implies s[j] != ':' by {
        assert(s[j] == port[j - m - 1]);
        assert(port.contains(port[j - m - 1]));
    }
    assert(s[m] == ':');
    search::lemma_last_index_is(s, ':', m);
    assert(s.skip(m + 1) =~= port);
}

/// A tilde in front of a path stands for the home directory, and only there; without a home
/// such a path has no meaning. A path that is not given is the usual one.
pub proof fn law_paths_are_below_the_home(
    home: Seq<char>,
    rest: Seq<char>,
    path: Seq<char>,
    default_known_hosts: Seq<char>,
)
    requires
        path.len() == 0 || path[0] != '~',
    ensures
        ({
            let tilde = seq!['~'];
            let below = seq!['~', '/'] + rest;
            let home_of = Some(home);
            &&& expanded(tilde, home_of) == Ok::<Seq<char>, Seq<char>>(home)
            &&& expanded(below, home_of) == Ok::<Seq<char>, Seq<char>>(home + seq!['/'] + rest)
            &&& expanded(path, home_of) == Ok::<Seq<char>, Seq<char>>(path)
            &&& expanded(path, None) == Ok::<Seq<char>, Seq<char>>(path)
            &&& expanded(tilde, None) is Err
            &&& expanded(below, None) is Err
            &&& normalized(Some(path), Some(below), home_of, default_known_hosts) == Ok::<
                (Seq<char>, Seq<char>),
                Seq<char>,
            >((path, home + seq!['/'] + rest))
            &&& normalized(None, Some(path), home_of, default_known_hosts) == Ok::<
                (Seq<char>, Seq<char>),
                Seq<char>,
            >((home + "/.ssh/id_ed25519"@, path))
            &&& normalized(Some(path), None, home_of, path) == Ok::<
                (Seq<char>, Seq<char>),
                Seq<char>,
            >((path, path))
            &&& normalized(None, Some(path), None, default_known_hosts) is Err
            &&& normalized(Some(path), Some(below), None, default_known_hosts) is Err
        }),
{
    reveal_strlit("~");
    reveal_strlit("~/");
    reveal_strlit("~/.ssh/id_ed25519");
    reveal_strlit("/.ssh/id_ed25519");
    let tilde = seq!['~'];
    let below = seq!['~', '/'] + rest;
    let usual = "~/.ssh/id_ed25519"@;
    assert("~"@ =~= tilde);
    assert("~/"@ =~= seq!['~', '/']);
    assert(tilde.skip(1) =~= Seq::<char>::empty());
    assert(home + tilde.skip(1) =~= home);
    assert(below.take(2) =~= "~/"@);
    assert(home + below.skip(1) =~= home + seq!['/'] + rest);
    assert(path != "~"@);
    if text::begins(path, "~/"@) {
        assert(path.take(2)[0] == path[0]);
    }
    assert(usual.take(2) =~= "~/"@);
    assert(usual.skip(1) =~= "/.ssh/id_ed25519"@);
}

/// The number that eight bytes stand for, the greatest first.
pub open spec fn be_value(bytes: Seq<u8>) -> int
    decreases bytes.len(),
{
    if bytes.len() == 0 {
        0
    } else {
        be_value(bytes.drop_last()) * 256 + bytes.last()
    }
}

/// The counter is written as the eight bytes that stand for it.
pub proof fn law_counter_is_written_whole(n: int)
    requires
        0 <= n <= u64::MAX,
    ensures
        be_bytes(n).len() == 8,
        be_value(be_bytes(n)) == n,
{
    lemma_be_prefix(n, 8);
    reveal_with_fuel(vstd::arithmetic::power::pow, 2);
    assert(be_bytes(n).take(8) =~= be_bytes(n));
}

proof fn lemma_be_prefix(n: int, k: int)
    requires
        0 <= n <= u64::MAX,
        0 <= k <= 8,
    ensures
        be_value(be_bytes(n).take(k)) == n / vstd::arithmetic::power::pow(256, (8 - k) as nat),
    decreases k,
{
    let bytes = be_bytes(n);
    vstd::arithmetic::power::lemma_pow_positive(256, (8 - k) as nat);
    if k == 0 {
        reveal_with_fuel(vstd::arithmetic::power::pow, 9);
        assert(vstd::arithmetic::power::pow(256, 8) == 0x1_0000_0000_0000_0000);
        assert(n / 0x1_0000_0000_0000_0000 == 0);
    } else {
        lemma_be_prefix(n, k - 1);
        let small = vstd::arithmetic::power::pow(256, (8 - k) as nat);
        let large = vstd::arithmetic::power::pow(256, (9 - k) as nat);
        reveal_with_fuel(vstd::arithmetic::power::pow, 2);
        assert(large == 256 * small);
        vstd::arithmetic::div_mod::lemma_div_denominator(n, small, 256);
        assert(small * 256 == large) by (nonlinear_arith)
            requires
                large == 256 * small,
        ;
        assert(n / large == (n / small) / 256);
        assert(bytes.take(k).drop_last() =~= bytes.take(k - 1));
        assert(bytes.take(k).last() == ((n / small) % 256) as u8);
    }
}

/// The number behind a code is that of four bytes of the digest, the greatest first and without
/// its sign, at the place that the digest's last four bits give.
pub proof fn law_code_is_cut_out_of_the_digest(digest: Seq<u8>)
    requires
        digest.len() == 20,
    ensures
        ({
            let o = (digest[19] % 16) as int;
            let n = digest[o] * 0x1000000 + digest[o + 1] * 0x10000 + digest[o + 2] * 0x100
                + digest[o + 3];
            truncated(digest) == n % 0x80000000
        }),
{
}

/// A code is that number, as far as its digits go, with zeros in front.
pub proof fn law_code_shows_its_number(digest: Seq<u8>, digits: int)
    requires
        digest.len() == 20,
        1 <= digits <= 9,
    ensures
        text::digits_value(code_of(digest, digits)) == truncated(digest)
            % vstd::arithmetic::power::pow(10, digits as nat),
{
    let p = vstd::arithmetic::power::pow(10, digits as nat);
    vstd::arithmetic::power::lemma_pow_positive(10, digits as nat);
    let n = truncated(digest) % p;
    let d = text::dec(n);
    text::lemma_decimal_reads_back(n);
    if d.len() < digits {
        lemma_zeros_in_front(Seq::new((digits - d.len()) as nat, |i: int| '0'), d);
    }
}

proof fn lemma_zeros_in_front(zeros: Seq<char>, d: Seq<char>)
    requires
        forall|i: int| 0 <= i < zeros.len() ==> zeros[i] == '0',
    ensures
        text::digits_value(zeros + d) == text::digits_value(d),
    decreases zeros.len() + d.len(),
{
    let s = zeros + d;
    if d.len() > 0 {
        assert(s.drop_last() =~= zeros + d.drop_last());
        lemma_zeros_in_front(zeros, d.drop_last());
    } else if zeros.len() > 0 {
        assert(s.drop_last() =~= zeros.drop_last() + d);
        lemma_zeros_in_front(zeros.drop_last(), d);
    }
}

/// A code is that of the counter of its period: it stays the same for a whole period.
pub proof fn law_codes_last_a_period(secret: Seq<u8>, config: MfaConfig, step: int, within: int)
    requires
        config.period > 0,
        0 <= step,
        0 <= within < config.period,
    ensures
        totp(secret, config, step * config.period + within) == code_of(
            hmac_sha1(secret, be_bytes(step)),
            config.digits as int,
        ),
{
    let period = config.period as int;
    vstd::arithmetic::div_mod::lemma_fundamental_div_mod_converse(
        step * period + within,
        period,
        step,
        within,
    );
}

/// A list of algorithms names `ssh-rsa` where one of its items does, with or without a plus in
/// front and blanks aside.
pub proof fn law_listed_algorithms_are_found(list: Seq<char>, item: Seq<char>)
    requires
        !item.contains(','),
    ensures
        ({
            let named = text::trim_of(item) == "ssh-rsa"@ || text::trim_of(item) == "+ssh-rsa"@;
            &&& names_ssh_rsa(item) == named
            &&& names_ssh_rsa(list + seq![','] + item) == (names_ssh_rsa(list) || named)
        }),
{
    let whole = list + seq![','] + item;
    text::lemma_split_none(item, ',');
    text::lemma_split_last(list, item, ',');
    let before = text::split_of(list, ',');
    let after = text::split_of(whole, ',');
    assert(text::split_of(item, ',')[0] == item);
    assert(after == before.push(item));
    if names_ssh_rsa(list) {
        let i = choose|i: int|
            #![trigger text::split_of(list, ',')[i]]
            0 <= i < text::split_of(list, ',').len() && (text::trim_of(
                text::split_of(list, ',')[i],
            ) == "ssh-rsa"@ || text::trim_of(text::split_of(list, ',')[i]) == "+ssh-rsa"@);
        assert(text::split_of(whole, ',')[i] == text::split_of(list, ',')[i]);
    }
    if names_ssh_rsa(whole) {
        let i = choose|i: int|
            #![trigger text::split_of(whole, ',')[i]]
            0 <= i < text::split_of(whole, ',').len() && (text::trim_of(
                text::split_of(whole, ',')[i],
            ) == "ssh-rsa"@ || text::trim_of(text::split_of(whole, ',')[i]) == "+ssh-rsa"@);
        if i < before.len() {
            assert(text::split_of(list, ',')[i] == text::split_of(whole, ',')[i]);
        } else {
            assert(text::split_of(whole, ',')[i] == item);
        }
    }
    assert(text::split_of(whole, ',')[before.len() as int] == item);
}

} // verus!
