use digest::Digest;
use vstd::prelude::*;
use vstd::string::{StrSliceExecFns, StringExecFns};
use vstd::utf8::encode_utf8;

use crate::text::digit_char;

verus! {

/// Paths that the running service was launched with: where to execute, where
/// the configuration file lives, and where log output goes (empty when the
/// service does not log to a file).
#[derive(Clone, Debug)]
pub struct Context {
    pub working_dir: String,
    pub config_file_path: String,
    pub log_file_path: String,
}

impl Context {
    pub fn new(config_file_path: String, working_dir: String, log_file_path: String) -> (r: Context)
        ensures
            r.working_dir == working_dir,
            r.config_file_path == config_file_path,
            r.log_file_path == log_file_path,
    {
        Context { working_dir, config_file_path, log_file_path }
    }
}

/// One configured login: a user name and its password.
#[derive(Clone, Debug)]
pub struct Login {
    pub username: String,
    pub password: String,
}

/// Settings of the performance endpoint.
#[derive(Clone, Debug)]
pub struct PerfConfig {
    pub enabled: bool,
    pub perf_addr: String,
}

impl Default for PerfConfig {
    /// Disabled, on the standard address.
    fn default() -> (r: Self)
        ensures
            !r.enabled,
            r.perf_addr@ == "0.0.0.0:4000"@,
    {
        PerfConfig { enabled: false, perf_addr: "0.0.0.0:4000".to_owned() }
    }
}

// ---------------------------------------------------------------------------
// Deriving the default login secrets
// ---------------------------------------------------------------------------

/// The SHA-256 digest of a byte sequence: a fixed function of the bytes.
pub uninterp spec fn sha256_of(bytes: Seq<u8>) -> Seq<u8>;

/// Relies on `sha2::Sha256` through the digest traits: a 32-byte digest that
/// depends on the input bytes alone.
#[verifier::external_body]
fn sha256_bytes(data: &Vec<u8>) -> (r: Vec<u8>)
    ensures
        r@ == sha256_of(data@),
        r@.len() == 32,
{
    let mut h = sha2::Sha256::new();
    h.update(data.as_slice());
    h.finalize().to_vec()
}

/// Relies on rand's `Alphanumeric` distribution via `SampleString`: a random
/// text of exactly `len` ASCII alphanumeric characters. The result depends
/// on the generator, so only its length is promised.
#[verifier::external_body]
fn random_salt(len: usize) -> (r: String)
    ensures
        r@.len() == len,
{
    rand::distr::SampleString::sample_string(&rand::distr::Alphanumeric, &mut rand::rng(), len)
}

/// The bytes hashed for a password entry: the password, a `$` separator, and
/// the salt.
pub open spec fn password_preimage(password: Seq<char>, salt: Seq<char>) -> Seq<u8> {
    encode_utf8(password) + seq![36u8] + encode_utf8(salt)
}

/// Hashes a password with a salt: the SHA-256 digest of the password, a `$`
/// separator, and the salt.
pub fn hash_password(password: &str, salt: &str) -> (r: Vec<u8>)
    ensures
        r@ == sha256_of(password_preimage(password@, salt@)),
        r@.len() == 32,
{
    let mut data = password.as_bytes_vec();
    data.push(36);
    let mut tail = salt.as_bytes_vec();
    data.append(&mut tail);
    proof {
        assert(data@ =~= password_preimage(password@, salt@));
    }
    sha256_bytes(&data)
}

/// The lowercase hexadecimal digit for a value below sixteen.
pub open spec fn hex_digit(d: int) -> char {
    if d < 10 {
        digit_char(d)
    } else if d == 10 {
        'a'
    } else if d == 11 {
        'b'
    } else if d == 12 {
        'c'
    } else if d == 13 {
        'd'
    } else if d == 14 {
        'e'
    } else {
        'f'
    }
}

/// One byte rendered in lowercase hex without zero padding: a single digit
/// below sixteen, two digits otherwise.
pub open spec fn hex_of_byte(b: u8) -> Seq<char> {
    if b < 16 {
        seq![hex_digit(b as int)]
    } else {
        seq![hex_digit(b as int / 16), hex_digit(b as int % 16)]
    }
}

/// A byte sequence rendered byte by byte in unpadded lowercase hex.
pub open spec fn hex_of_bytes(bs: Seq<u8>) -> Seq<char>
    decreases bs.len(),
{
    if bs.len() == 0 {
        Seq::empty()
    } else {
        hex_of_bytes(bs.drop_last()) + hex_of_byte(bs.last())
    }
}

fn hex_digit_str(d: u8) -> (r: &'static str)
    requires
        d < 16,
    ensures
        r@ =~= seq![hex_digit(d as int)],
{
    proof {
        reveal_strlit("0");
        reveal_strlit("1");
        reveal_strlit("2");
        reveal_strlit("3");
        reveal_strlit("4");
        reveal_strlit("5");
        reveal_strlit("6");
        reveal_strlit("7");
        reveal_strlit("8");
        reveal_strlit("9");
        reveal_strlit("a");
        reveal_strlit("b");
        reveal_strlit("c");
        reveal_strlit("d");
        reveal_strlit("e");
        reveal_strlit("f");
    }
    match d {
        0 => "0",
        1 => "1",
        2 => "2",
        3 => "3",
        4 => "4",
        5 => "5",
        6 => "6",
        7 => "7",
        8 => "8",
        9 => "9",
        10 => "a",
        11 => "b",
        12 => "c",
        13 => "d",
        14 => "e",
        _ => "f",
    }
}

/// Renders a digest the way the configuration writer does: each byte in
/// unpadded lowercase hex, concatenated.
pub fn hex_string(bytes: &Vec<u8>) -> (r: String)
    ensures
        r@ == hex_of_bytes(bytes@),
{
    let mut r = String::new();
    let mut i: usize = 0;
    proof {
        assert(bytes@.take(0) =~= Seq::<u8>::empty());
    }
    while i < bytes.len()
        invariant
            i <= bytes@.len(),
            r@ == hex_of_bytes(bytes@.take(i as int)),
        decreases bytes@.len() - i,
    {
        let b = bytes[i];
        proof {
            assert(bytes@.take(i + 1).drop_last() =~= bytes@.take(i as int));
            assert(bytes@.take(i + 1).last() == bytes@[i as int]);
        }
        if b < 16 {
            r.append(hex_digit_str(b));
        } else {
            r.append(hex_digit_str(b / 16));
            r.append(hex_digit_str(b % 16));
            proof {
                assert(hex_of_byte(b) =~= seq![hex_digit(b as int / 16)] + seq![
                    hex_digit(b as int % 16),
                ]);
            }
        }
        i = i + 1;
    }
    proof {
        assert(bytes@.take(bytes@.len() as int) =~= bytes@);
    }
    r
}

/// The two default logins written into a fresh configuration: fixed user
/// names, passwords derived from the given moment's text and a salt — a
/// sixteen-character draw from the random generator followed by the host tag
/// — as the digest in hex with a per-user mark appended.
pub fn default_logins(stamp: &str, host: &str) -> (r: Vec<Login>)
    ensures
        r@.len() == 2,
        r@[0].username@ == "myuserA"@,
        r@[1].username@ == "myuserB"@,
        exists|drawn: Seq<char>|
            {
                let hex = hex_of_bytes(
                    sha256_of(#[trigger] password_preimage(stamp@, drawn + host@)),
                );
                &&& drawn.len() == 16
                &&& r@[0].password@ == hex + "_A"@
                &&& r@[1].password@ == hex + "_B"@
            },
{
    let mut salt = random_salt(16);
    let ghost drawn = salt@;
    salt.append(host);
    let digest = hash_password(stamp, salt.as_str());
    let hex = hex_string(&digest);
    let mut pa = hex.clone();
    pa.append("_A");
    let mut pb = hex;
    pb.append("_B");
    let mut r: Vec<Login> = Vec::new();
    r.push(Login { username: "myuserA".to_owned(), password: pa });
    r.push(Login { username: "myuserB".to_owned(), password: pb });
    proof {
        assert(salt@ == drawn + host@);
        assert(drawn.len() == 16 && r@[0].password@ == hex_of_bytes(
            sha256_of(password_preimage(stamp@, drawn + host@)),
        ) + "_A"@ && r@[1].password@ == hex_of_bytes(
            sha256_of(password_preimage(stamp@, drawn + host@)),
        ) + "_B"@);
    }
    r
}

} // verus!
