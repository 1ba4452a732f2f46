use vstd::prelude::*;
use vstd::utf8::*;
use vstd::string::*;
use aes_gcm::aead::{Aead, KeyInit};
use base64::Engine;
use rand::Rng;

verus! {

/// Settings of the proxy: which provider it fronts, the API key (stored
/// encrypted), the local port it listens on and the upstream base URL.
#[derive(Clone, Debug)]
pub struct ProxyConfig {
    pub provider: String,
    pub api_key: String,
    pub port: u16,
    pub upstream_url: String,
}

impl Default for ProxyConfig {
    fn default() -> (c: Self)
        ensures
            c.provider@ == "openai"@,
            c.api_key@ == Seq::<char>::empty(),
            c.port == 8080,
            c.upstream_url@ == "https://api.openai.com"@,
    {
        ProxyConfig {
            provider: String::from_str("openai"),
            api_key: String::new(),
            port: 8080,
            upstream_url: String::from_str("https://api.openai.com"),
        }
    }
}

#[verifier::external_type_specification]
#[verifier::external_body]
pub struct ExIoError(std::io::Error);

#[verifier::external_type_specification]
#[verifier::external_body]
pub struct ExJsonError(serde_json::Error);

/// Failures of loading, storing, encrypting or decrypting the configuration.
#[derive(Debug)]
pub enum ConfigError {
    Io(std::io::Error),
    Serde(serde_json::Error),
    Encryption(String),
    NotFound,
}

/// Largest plaintext, in bytes, that AES-GCM encrypts.
pub const AES_GCM_MAX_PLAINTEXT: u64 = 0x10_0000_0000;

/// Length of the nonce that precedes the ciphertext in an encrypted key.
pub const NONCE_LEN: usize = 12;

/// Length of the AES-256 key.
pub const KEY_LEN: usize = 32;

pub open spec fn bytes_ok(b: Seq<u8>) -> Result<Seq<u8>, Seq<char>> {
    Ok(b)
}

pub open spec fn bytes_err(m: Seq<char>) -> Result<Seq<u8>, Seq<char>> {
    Err(m)
}

pub open spec fn text_ok(t: Seq<char>) -> Result<Seq<char>, Seq<char>> {
    Ok(t)
}

pub open spec fn text_err(m: Seq<char>) -> Result<Seq<char>, Seq<char>> {
    Err(m)
}

/// AES-256-GCM encryption of `plaintext` under `key` and `nonce`, without
/// associated data: the ciphertext followed by the 16-byte tag.
pub uninterp spec fn aes256gcm_seal(key: Seq<u8>, nonce: Seq<u8>, plaintext: Seq<u8>) -> Seq<u8>;

/// AES-256-GCM decryption of `ciphertext` (tag last) under `key` and `nonce`,
/// without associated data: `None` where the tag does not authenticate.
pub uninterp spec fn aes256gcm_open(key: Seq<u8>, nonce: Seq<u8>, ciphertext: Seq<u8>) -> Option<Seq<u8>>;

/// The character of the standard base64 alphabet (RFC 4648) for the six-bit
/// value `v`.
pub open spec fn base64_char(v: int) -> char {
    if v < 26 {
        (65 + v) as char
    } else if v < 52 {
        (97 + (v - 26)) as char
    } else if v < 62 {
        (48 + (v - 52)) as char
    } else if v == 62 {
        '+'
    } else {
        '/'
    }
}

/// Standard base64 of `b` (RFC 4648 alphabet, `=` padding): each group of
/// three bytes becomes four characters; a last group of one or two bytes is
/// padded with `=` to four.
pub open spec fn base64_encode(b: Seq<u8>) -> Seq<char>
    decreases b.len(),
{
    if b.len() == 0 {
        Seq::empty()
    } else if b.len() == 1 {
        seq![base64_char((b[0] as int) / 4), base64_char(((b[0] as int) % 4) * 16), '=', '=']
    } else if b.len() == 2 {
        seq![
            base64_char((b[0] as int) / 4),
            base64_char(((b[0] as int) % 4) * 16 + (b[1] as int) / 16),
            base64_char(((b[1] as int) % 16) * 4),
            '=',
        ]
    } else {
        seq![
            base64_char((b[0] as int) / 4),
            base64_char(((b[0] as int) % 4) * 16 + (b[1] as int) / 16),
            base64_char(((b[1] as int) % 16) * 4 + (b[2] as int) / 64),
            base64_char((b[2] as int) % 64),
        ] + base64_encode(b.subrange(3, b.len() as int))
    }
}

proof fn lemma_base64_char_ascii(v: int)
    requires
        0 <= v < 64,
    ensures
        ('\0' as u32) <= (base64_char(v) as u32) <= 127,
{
}

/// Standard base64 text is ASCII, four characters for every three bytes or
/// part of three.
pub proof fn lemma_base64_shape(b: Seq<u8>)
    ensures
        base64_encode(b).len() == 4 * ((b.len() + 2) / 3),
        is_ascii_chars(base64_encode(b)),
    decreases b.len(),
{
    let e = base64_encode(b);
    if b.len() == 0 {
    } else {
        assert(0 <= (b[0] as int) / 4 < 64);
        assert(0 <= ((b[0] as int) % 4) * 16 < 64);
        lemma_base64_char_ascii((b[0] as int) / 4);
        lemma_base64_char_ascii(((b[0] as int) % 4) * 16);
        if b.len() == 1 {
            assert forall|i| 0 <= i < e.len() implies '\0' <= #[trigger] e[i] <= '\u{7f}' by {}
        } else {
            assert(0 <= ((b[0] as int) % 4) * 16 + (b[1] as int) / 16 < 64);
            assert(0 <= ((b[1] as int) % 16) * 4 < 64);
            lemma_base64_char_ascii(((b[0] as int) % 4) * 16 + (b[1] as int) / 16);
            lemma_base64_char_ascii(((b[1] as int) % 16) * 4);
            if b.len() == 2 {
                assert forall|i| 0 <= i < e.len() implies '\0' <= #[trigger] e[i] <= '\u{7f}' by {}
            } else {
                assert(0 <= ((b[1] as int) % 16) * 4 + (b[2] as int) / 64 < 64);
                assert(0 <= (b[2] as int) % 64 < 64);
                lemma_base64_char_ascii(((b[1] as int) % 16) * 4 + (b[2] as int) / 64);
                lemma_base64_char_ascii((b[2] as int) % 64);
                let rest = b.subrange(3, b.len() as int);
                lemma_base64_shape(rest);
                let head = seq![
                    base64_char((b[0] as int) / 4),
                    base64_char(((b[0] as int) % 4) * 16 + (b[1] as int) / 16),
                    base64_char(((b[1] as int) % 16) * 4 + (b[2] as int) / 64),
                    base64_char((b[2] as int) % 64),
                ];
                assert(e == head + base64_encode(rest));
                assert forall|i| 0 <= i < e.len() implies '\0' <= #[trigger] e[i] <= '\u{7f}' by {
                    if i >= 4 {
                        assert(e[i] == base64_encode(rest)[i - 4]);
                    }
                }
            }
        }
    }
}

/// Decoding of `text` by the standard base64 engine: the bytes, or the text of
/// the decoding error.
pub uninterp spec fn base64_decode(text: Seq<char>) -> Result<Seq<u8>, Seq<char>>;

/// Text of the error that `String::from_utf8` reports for invalid `bytes`.
pub uninterp spec fn utf8_error_text(bytes: Seq<u8>) -> Seq<char>;

/// The host name of this machine, lossily decoded; `None` where it cannot be read.
///
/// Calls `hostname::get`. Nothing is claimed of the result: it depends on the machine.
#[verifier::external_body]
fn machine_hostname() -> (r: Option<String>) {
    match hostname::get() {
        Ok(h) => Some(h.to_string_lossy().to_string()),
        Err(_) => None,
    }
}

/// Twelve bytes from the thread-local random generator (`rand::Rng::fill`).
///
/// Only the length is claimed: the bytes are random.
#[verifier::external_body]
fn random_nonce() -> (r: Vec<u8>)
    ensures
        r@.len() == NONCE_LEN,
{
    let mut nonce = [0u8; NONCE_LEN];
    rand::thread_rng().fill(&mut nonce);
    nonce.to_vec()
}

/// `Aes256Gcm::encrypt` (aes-gcm): fails exactly when the plaintext is longer
/// than `P_MAX` (2^36 bytes), with an error whose text is `aead::Error`.
/// On success the result is the sealed text, 16 bytes longer than the
/// plaintext, and opening it under the same key and nonce gives the plaintext
/// back (the AEAD correctness property).
#[verifier::external_body]
fn aes_seal(key: &[u8], nonce: &[u8], plaintext: &[u8]) -> (r: Result<Vec<u8>, String>)
    requires
        key@.len() == KEY_LEN,
        nonce@.len() == NONCE_LEN,
    ensures
        r is Ok <==> plaintext@.len() <= AES_GCM_MAX_PLAINTEXT,
        r matches Ok(c) ==> {
            &&& c@ == aes256gcm_seal(key@, nonce@, plaintext@)
            &&& c@.len() == plaintext@.len() + 16
            &&& aes256gcm_open(key@, nonce@, c@) == Some(plaintext@)
        },
        r matches Err(m) ==> m@ == "aead::Error"@,
{
    let cipher = aes_gcm::Aes256Gcm::new(aes_gcm::aead::generic_array::GenericArray::from_slice(key));
    match cipher.encrypt(aes_gcm::Nonce::from_slice(nonce), plaintext) {
        Ok(c) => Ok(c),
        Err(e) => Err(e.to_string()),
    }
}

/// `Aes256Gcm::decrypt` (aes-gcm): the plaintext where the text authenticates
/// under `key` and `nonce`, else an error whose text is `aead::Error`; a text
/// shorter than the 16-byte tag is always an error.
#[verifier::external_body]
fn aes_open(key: &[u8], nonce: &[u8], ciphertext: &[u8]) -> (r: Result<Vec<u8>, String>)
    requires
        key@.len() == KEY_LEN,
        nonce@.len() == NONCE_LEN,
    ensures
        r matches Ok(v) ==> aes256gcm_open(key@, nonce@, ciphertext@) == Some(v@),
        r matches Err(m) ==> aes256gcm_open(key@, nonce@, ciphertext@) is None && m@ == "aead::Error"@,
        ciphertext@.len() < 16 ==> r is Err,
{
    let cipher = aes_gcm::Aes256Gcm::new(aes_gcm::aead::generic_array::GenericArray::from_slice(key));
    match cipher.decrypt(aes_gcm::Nonce::from_slice(nonce), ciphertext) {
        Ok(p) => Ok(p),
        Err(e) => Err(e.to_string()),
    }
}

/// `base64::engine::general_purpose::STANDARD.encode`: the padded encoding, four
/// characters for every three bytes or part of three, which the same engine
/// decodes back to `bytes`. The length bound keeps the engine's
/// output-size computation from overflowing (it panics there).
#[verifier::external_body]
fn base64_encode_bytes(bytes: &[u8]) -> (r: String)
    requires
        bytes@.len() <= 3 * (usize::MAX / 4) - 2,
    ensures
        r@ == base64_encode(bytes@),
        base64_decode(r@) == bytes_ok(bytes@),
{
    base64::engine::general_purpose::STANDARD.encode(bytes)
}

/// `base64::engine::general_purpose::STANDARD.decode`, the error given by its text.
#[verifier::external_body]
fn base64_decode_text(text: &str) -> (r: Result<Vec<u8>, String>)
    ensures
        r matches Ok(v) ==> base64_decode(text@) == bytes_ok(v@),
        r matches Err(e) ==> base64_decode(text@) == bytes_err(e@),
{
    match base64::engine::general_purpose::STANDARD.decode(text) {
        Ok(b) => Ok(b),
        Err(e) => Err(e.to_string()),
    }
}

/// `String::from_utf8`: the decoded text where `bytes` are valid UTF-8, else
/// the text of the error.
#[verifier::external_body]
fn string_from_utf8(bytes: Vec<u8>) -> (r: Result<String, String>)
    ensures
        r matches Ok(s) ==> valid_utf8(bytes@) && s@ == decode_utf8(bytes@),
        r matches Err(m) ==> !valid_utf8(bytes@) && m@ == utf8_error_text(bytes@),
{
    match String::from_utf8(bytes) {
        Ok(s) => Ok(s),
        Err(e) => Err(e.to_string()),
    }
}

/// `<[u8]>::len`, with the bound Rust places on every slice: no more than
/// `isize::MAX` bytes (the safety contract of `slice::from_raw_parts`).
#[verifier::external_body]
fn byte_len(bytes: &[u8]) -> (n: usize)
    ensures
        n == bytes@.len(),
        n <= isize::MAX,
{
    bytes.len()
}

/// The key that encrypts the stored API key on a machine named `host`: the
/// UTF-8 bytes of `ren-desktop-{host}`, cut to 32 bytes or padded with zeros.
pub open spec fn spec_key(host: Seq<char>) -> Seq<u8> {
    let input = encode_utf8("ren-desktop-"@ + host);
    Seq::new(32, |i: int| if i < input.len() { input[i] } else { 0u8 })
}

/// The stored form of `api_key`: base64 of the nonce followed by the sealed key.
pub open spec fn spec_encrypted(key: Seq<u8>, nonce: Seq<u8>, api_key: Seq<char>) -> Seq<char> {
    base64_encode(nonce + aes256gcm_seal(key, nonce, encode_utf8(api_key)))
}

/// What opening the decoded stored bytes `data` under `key` gives: the API
/// key, or the text of the first failure (length, authentication, UTF-8).
/// Bytes too short to hold the 16-byte tag after the nonce never authenticate.
pub open spec fn spec_open_stored(key: Seq<u8>, data: Seq<u8>) -> Result<Seq<char>, Seq<char>> {
    if data.len() < 12 {
        Err("Invalid encrypted data"@)
    } else if data.len() < 12 + 16 {
        Err("aead::Error"@)
    } else {
        match aes256gcm_open(key, data.subrange(0, 12), data.subrange(12, data.len() as int)) {
            None => Err("aead::Error"@),
            Some(p) => if valid_utf8(p) {
                Ok(decode_utf8(p))
            } else {
                Err(utf8_error_text(p))
            },
        }
    }
}

/// What decrypting the stored text `encrypted` under `key` gives: the API key,
/// or the text of the first failure (base64, then as `spec_open_stored`).
pub open spec fn spec_decrypt(key: Seq<u8>, encrypted: Seq<char>) -> Result<Seq<char>, Seq<char>> {
    match base64_decode(encrypted) {
        Err(m) => Err(m),
        Ok(data) => spec_open_stored(key, data),
    }
}

/// The shape of a stored key text `e` for a key of `len` UTF-8 bytes sealed
/// with `nonce`: it decodes to `12 + len + 16` bytes, the nonce first, and has
/// the padded base64 length of that many bytes, in characters and, being
/// ASCII, in bytes too.
pub open spec fn stored_layout(e: Seq<char>, nonce: Seq<u8>, len: nat) -> bool {
    &&& base64_decode(e) is Ok
    &&& base64_decode(e)->Ok_0.len() == NONCE_LEN + len + 16
    &&& base64_decode(e)->Ok_0.subrange(0, NONCE_LEN as int) == nonce
    &&& e.len() == 4 * ((NONCE_LEN + len + 16 + 2) / 3)
    &&& is_ascii_chars(e)
    &&& encode_utf8(e).len() == e.len()
}

/// A decryption outcome as the library reports it, against its spec.
pub open spec fn decrypt_outcome(r: Result<String, ConfigError>, expected: Result<Seq<char>, Seq<char>>) -> bool {
    match r {
        Ok(s) => expected == text_ok(s@),
        Err(ConfigError::Encryption(m)) => expected == text_err(m@),
        Err(_) => false,
    }
}

fn copy_bytes(s: &[u8], from: usize, to: usize) -> (r: Vec<u8>)
    requires
        from <= to <= s@.len(),
    ensures
        r@ == s@.subrange(from as int, to as int),
{
    let mut r: Vec<u8> = Vec::new();
    let mut k = from;
    while k < to
        invariant
            from <= k <= to <= s@.len(),
            r@ == s@.subrange(from as int, k as int),
        decreases to - k,
    {
        r.push(s[k]);
        k = k + 1;
    }
    r
}

/// The encryption key for a machine whose host name is `host`.
pub fn derive_key(host: &str) -> (key: Vec<u8>)
    ensures
        key@ == spec_key(host@),
{
    let mut input = String::from_str("ren-desktop-");
    input.append(host);
    let bytes = input.as_str().as_bytes();
    let mut key: Vec<u8> = Vec::new();
    let mut i: usize = 0;
    while i < KEY_LEN
        invariant
            i <= KEY_LEN,
            bytes@ == encode_utf8("ren-desktop-"@ + host@),
            key@ =~= spec_key(host@).subrange(0, i as int),
        decreases KEY_LEN - i,
    {
        if i < bytes.len() {
            key.push(bytes[i]);
        } else {
            key.push(0u8);
        }
        i = i + 1;
    }
    key
}

proof fn lemma_scalar_bytes_nonzero(v: u32)
    requires
        v != 0,
    ensures
        forall|i: int| 0 <= i < encode_scalar(v).len() ==> encode_scalar(v)[i] != 0,
{
    let e = encode_scalar(v);
    if has_width_1_encoding(v) {
        assert((v & 0x7F) as u8 != 0) by (bit_vector)
            requires
                0 < v <= 0x7F;
    } else {
        assert(0x80 | (v & 0x3F) as u8 != 0) by (bit_vector);
        assert(0x80 | ((v >> 6) & 0x3F) as u8 != 0) by (bit_vector);
        assert(0x80 | ((v >> 12) & 0x3F) as u8 != 0) by (bit_vector);
        assert(0xC0 | ((v >> 6) & 0x1F) as u8 != 0) by (bit_vector);
        assert(0xE0 | ((v >> 12) & 0x0F) as u8 != 0) by (bit_vector);
        assert(0xF0 | ((v >> 18) & 0x7) as u8 != 0) by (bit_vector);
    }
}

proof fn lemma_encode_utf8_nonzero(chars: Seq<char>)
    requires
        forall|i: int| 0 <= i < chars.len() ==> chars[i] != '\0',
    ensures
        forall|i: int| 0 <= i < encode_utf8(chars).len() ==> encode_utf8(chars)[i] != 0,
    decreases chars.len(),
{
    if chars.len() > 0 {
        let c = chars[0];
        assert(c != '\0');
        assert((c as u32) != 0) by {
            if (c as u32) == 0 {
                char_u32_cast(c, 0u32);
                assert((0u32 as char) == '\0');
            }
        }
        lemma_scalar_bytes_nonzero(c as u32);
        lemma_encode_utf8_nonzero(chars.drop_first());
        let head = encode_scalar(c as u32);
        let tail = encode_utf8(chars.drop_first());
        assert forall|i: int| 0 <= i < encode_utf8(chars).len() implies encode_utf8(chars)[i] != 0 by {
            if i >= head.len() {
                assert(encode_utf8(chars)[i] == tail[i - head.len()]);
            } else {
                assert(encode_utf8(chars)[i] == head[i]);
            }
        }
    }
}

/// Host names identify their keys: two different host names, neither holding
/// a NUL character and both short enough that `ren-desktop-{host}` fits the
/// 32-byte key, give different keys. In particular every such host other than
/// `default` gets a key of its own, not the fallback key.
pub proof fn law_key_identifies_host(a: Seq<char>, b: Seq<char>)
    requires
        a != b,
        forall|i: int| 0 <= i < a.len() ==> a[i] != '\0',
        forall|i: int| 0 <= i < b.len() ==> b[i] != '\0',
        encode_utf8("ren-desktop-"@ + a).len() <= KEY_LEN,
        encode_utf8("ren-desktop-"@ + b).len() <= KEY_LEN,
    ensures
        spec_key(a) != spec_key(b),
{
    broadcast use encode_utf8_decode_utf8;
    reveal_strlit("ren-desktop-");
    let p = "ren-desktop-"@;
    let pa = p + a;
    let pb = p + b;
    let ia = encode_utf8(pa);
    let ib = encode_utf8(pb);
    assert forall|i: int| 0 <= i < pa.len() implies pa[i] != '\0' by {
        if i >= p.len() {
            assert(pa[i] == a[i - p.len()]);
        }
    }
    assert forall|i: int| 0 <= i < pb.len() implies pb[i] != '\0' by {
        if i >= p.len() {
            assert(pb[i] == b[i - p.len()]);
        }
    }
    lemma_encode_utf8_nonzero(pa);
    lemma_encode_utf8_nonzero(pb);
    if spec_key(a) == spec_key(b) {
        let ka = spec_key(a);
        let kb = spec_key(b);
        if ia.len() < ib.len() {
            assert(ka[ia.len() as int] == 0u8);
            assert(kb[ia.len() as int] == ib[ia.len() as int]);
            assert(false);
        } else if ib.len() < ia.len() {
            assert(kb[ib.len() as int] == 0u8);
            assert(ka[ib.len() as int] == ia[ib.len() as int]);
            assert(false);
        } else {
            assert forall|i: int| 0 <= i < ia.len() implies ia[i] == ib[i] by {
                assert(ka[i] == ia[i]);
                assert(kb[i] == ib[i]);
            }
            assert(ia =~= ib);
            assert(decode_utf8(encode_utf8(pa)) == pa);
            assert(decode_utf8(encode_utf8(pb)) == pb);
            assert(pa == pb);
            assert(a =~= pa.subrange(p.len() as int, pa.len() as int));
            assert(b =~= pb.subrange(p.len() as int, pb.len() as int));
        }
    }
}

/// The host name a key is derived from: the machine's, or `default` where it
/// cannot be read.
pub open spec fn key_host(host: Option<Seq<char>>) -> Seq<char> {
    match host {
        Some(h) => h,
        None => "default"@,
    }
}

/// The encryption key for what reading the host name gave.
pub fn key_for_host(host: Option<&str>) -> (key: Vec<u8>)
    ensures
        key@ == spec_key(key_host(match host {
            Some(h) => Some(h@),
            None => None,
        })),
{
    match host {
        Some(h) => derive_key(h),
        None => derive_key("default"),
    }
}

pub open spec fn host_view(host: Option<String>) -> Option<Seq<char>> {
    match host {
        Some(h) => Some(h@),
        None => None,
    }
}

/// Reads this machine's host name once, and gives what was read together with
/// the key derived from it: from the host name whenever it could be read, from
/// `default` only where it could not.
pub fn read_machine_key() -> (r: (Option<String>, Vec<u8>))
    ensures
        r.1@ == spec_key(key_host(host_view(r.0))),
        r.0 matches Some(h) ==> r.1@ == spec_key(h@),
        r.0 is None ==> r.1@ == spec_key("default"@),
{
    let host = machine_hostname();
    let key = match &host {
        Some(h) => key_for_host(Some(h.as_str())),
        None => key_for_host(None),
    };
    (host, key)
}

/// The encryption key of this machine: derived from its host name, or from
/// `default` where the host name cannot be read.
pub fn get_key() -> (key: Vec<u8>)
    ensures
        exists|host: Option<Seq<char>>| key@ == spec_key(key_host(host)),
{
    let (host, key) = read_machine_key();
    assert(key@ == spec_key(key_host(host_view(host))));
    key
}

/// Encrypts `api_key` under `key` with the given 12-byte `nonce`. The result
/// decrypts under the same key to `api_key` again.
pub fn encrypt_with_key(key: &[u8], nonce: &[u8], api_key: &str) -> (r: Result<String, ConfigError>)
    requires
        key@.len() == KEY_LEN,
        nonce@.len() == NONCE_LEN,
    ensures
        r is Ok <==> api_key.spec_bytes().len() <= AES_GCM_MAX_PLAINTEXT,
        r matches Ok(e) ==> e@ == spec_encrypted(key@, nonce@, api_key@),
        r matches Ok(e) ==> base64_decode(e@) == bytes_ok(
            nonce@ + aes256gcm_seal(key@, nonce@, api_key.spec_bytes()),
        ),
        r matches Ok(e) ==> aes256gcm_seal(key@, nonce@, api_key.spec_bytes()).len()
            == api_key.spec_bytes().len() + 16,
        r matches Ok(e) ==> stored_layout(e@, nonce@, api_key.spec_bytes().len()),
        r matches Ok(e) ==> spec_decrypt(key@, e@) == text_ok(api_key@),
        r matches Err(e) ==> e matches ConfigError::Encryption(m) && m@ == "aead::Error"@,
{
    let plaintext = api_key.as_bytes();
    let _ = byte_len(plaintext);
    let sealed = match aes_seal(key, nonce, plaintext) {
        Ok(c) => c,
        Err(m) => return Err(ConfigError::Encryption(m)),
    };
    let mut data: Vec<u8> = Vec::new();
    let mut i: usize = 0;
    while i < nonce.len()
        invariant
            i <= nonce@.len(),
            data@ == nonce@.subrange(0, i as int),
        decreases nonce@.len() - i,
    {
        data.push(nonce[i]);
        i = i + 1;
    }
    let mut j: usize = 0;
    while j < sealed.len()
        invariant
            j <= sealed@.len(),
            sealed@.len() == plaintext@.len() + 16,
            plaintext@.len() <= AES_GCM_MAX_PLAINTEXT,
            data@ == nonce@ + sealed@.subrange(0, j as int),
        decreases sealed@.len() - j,
    {
        data.push(sealed[j]);
        j = j + 1;
    }
    assert(nonce@.subrange(0, 12) =~= nonce@);
    assert(sealed@.subrange(0, sealed@.len() as int) =~= sealed@);
    let encoded = base64_encode_bytes(data.as_slice());
    proof {
        broadcast use encode_utf8_decode_utf8, encode_utf8_valid_utf8;
        lemma_base64_shape(data@);
        is_ascii_chars_encode_utf8(encoded@);
        assert(data@.subrange(0, 12) =~= nonce@);
        assert(data@.subrange(12, data@.len() as int) =~= sealed@);
    }
    Ok(encoded)
}

/// Opens the decoded stored bytes `data` (nonce, then sealed key) under `key`.
pub fn open_stored(key: &[u8], data: &[u8]) -> (r: Result<String, ConfigError>)
    requires
        key@.len() == KEY_LEN,
    ensures
        decrypt_outcome(r, spec_open_stored(key@, data@)),
{
    if data.len() < NONCE_LEN {
        let r = Err(ConfigError::Encryption(String::from_str("Invalid encrypted data")));
        return r;
    }
    let nonce = copy_bytes(data, 0, NONCE_LEN);
    let sealed = copy_bytes(data, NONCE_LEN, data.len());
    let plaintext = match aes_open(key, nonce.as_slice(), sealed.as_slice()) {
        Ok(p) => p,
        Err(m) => return Err(ConfigError::Encryption(m)),
    };
    match string_from_utf8(plaintext) {
        Ok(s) => Ok(s),
        Err(m) => Err(ConfigError::Encryption(m)),
    }
}

/// Decrypts the stored text `encrypted` under `key`.
pub fn decrypt_with_key(key: &[u8], encrypted: &str) -> (r: Result<String, ConfigError>)
    requires
        key@.len() == KEY_LEN,
    ensures
        decrypt_outcome(r, spec_decrypt(key@, encrypted@)),
{
    match base64_decode_text(encrypted) {
        Ok(d) => open_stored(key, d.as_slice()),
        Err(m) => Err(ConfigError::Encryption(m)),
    }
}

/// Encrypts `api_key` for storage, under this machine's key and a fresh
/// random nonce.
pub fn encrypt_api_key(api_key: &str) -> (r: Result<String, ConfigError>)
    ensures
        r is Ok <==> api_key.spec_bytes().len() <= AES_GCM_MAX_PLAINTEXT,
        r matches Ok(e) ==> exists|host: Option<Seq<char>>, nonce: Seq<u8>|
            nonce.len() == NONCE_LEN && e@ == spec_encrypted(spec_key(key_host(host)), nonce, api_key@)
                && stored_layout(e@, nonce, api_key.spec_bytes().len())
                && spec_decrypt(spec_key(key_host(host)), e@) == text_ok(api_key@),
        r matches Err(e) ==> e matches ConfigError::Encryption(m) && m@ == "aead::Error"@,
{
    let (host, key) = read_machine_key();
    let nonce = random_nonce();
    let r = encrypt_with_key(key.as_slice(), nonce.as_slice(), api_key);
    proof {
        let host = host_view(host);
        if r is Ok {
            assert(nonce@.len() == NONCE_LEN && r->Ok_0@ == spec_encrypted(spec_key(key_host(host)), nonce@, api_key@)
                && stored_layout(r->Ok_0@, nonce@, api_key.spec_bytes().len()));
        }
    }
    r
}

/// Decrypts the stored API key `encrypted` under this machine's key.
pub fn decrypt_api_key(encrypted: &str) -> (r: Result<String, ConfigError>)
    ensures
        exists|host: Option<Seq<char>>| decrypt_outcome(r, spec_decrypt(spec_key(key_host(host)), encrypted@)),
{
    let (host, key) = read_machine_key();
    let r = decrypt_with_key(key.as_slice(), encrypted);
    assert(decrypt_outcome(r, spec_decrypt(spec_key(key_host(host_view(host))), encrypted@)));
    r
}


/// The configuration to store for the given settings: the API key is kept
/// only in its encrypted form, which decrypts under this machine's key.
pub fn encrypted_config(provider: String, api_key: &str, port: u16, upstream_url: String) -> (r: Result<
    ProxyConfig,
    ConfigError,
>)
    ensures
        r is Ok <==> api_key.spec_bytes().len() <= AES_GCM_MAX_PLAINTEXT,
        r matches Ok(c) ==> c.provider@ == provider@ && c.port == port && c.upstream_url@ == upstream_url@,
        r matches Ok(c) ==> exists|host: Option<Seq<char>>, nonce: Seq<u8>|
            nonce.len() == NONCE_LEN && c.api_key@ == spec_encrypted(spec_key(key_host(host)), nonce, api_key@)
                && stored_layout(c.api_key@, nonce, api_key.spec_bytes().len())
                && spec_decrypt(spec_key(key_host(host)), c.api_key@) == text_ok(api_key@),
        r matches Err(e) ==> e matches ConfigError::Encryption(m) && m@ == "aead::Error"@,
{
    let encrypted = encrypt_api_key(api_key)?;
    Ok(ProxyConfig { provider: provider, api_key: encrypted, port: port, upstream_url: upstream_url })
}

} // verus!
