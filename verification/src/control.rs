//! The rules of the desktop commands: when the proxy and the public tunnel may
//! start or stop, what each command answers, and the texts it builds.
use vstd::prelude::*;
use vstd::utf8::*;
use crate::config::ProxyConfig;
use crate::text::{
    after_marker, chars_of, decimal, decimal_chars, find_sub, lines, split_lines, string_from_chars,
    trim_chars, views,
};

verus! {

/// Which sessions run: the proxy, and the public tunnel with its URL.
pub struct Controller {
    proxy_running: bool,
    tunnel_url: Option<String>,
}

pub open spec fn opt_view(o: Option<String>) -> Option<Seq<char>> {
    match o {
        Some(s) => Some(s@),
        None => None,
    }
}

pub open spec fn unit_ok() -> Result<(), Seq<char>> {
    Ok(())
}

pub open spec fn unit_err(m: Seq<char>) -> Result<(), Seq<char>> {
    Err(m)
}

pub open spec fn unit_view(r: Result<(), String>) -> Result<(), Seq<char>> {
    match r {
        Ok(_) => Ok(()),
        Err(m) => Err(m@),
    }
}

pub open spec fn text_view(r: Result<String, String>) -> Result<Seq<char>, Seq<char>> {
    match r {
        Ok(s) => Ok(s@),
        Err(m) => Err(m@),
    }
}

pub open spec fn text_ok(t: Seq<char>) -> Result<Seq<char>, Seq<char>> {
    Ok(t)
}

pub open spec fn text_err(m: Seq<char>) -> Result<Seq<char>, Seq<char>> {
    Err(m)
}

impl View for Controller {
    type V = (bool, Option<Seq<char>>);

    closed spec fn view(&self) -> (bool, Option<Seq<char>>) {
        (self.proxy_running, opt_view(self.tunnel_url))
    }
}

impl Controller {
    /// Nothing runs.
    pub fn new() -> (c: Self)
        ensures
            c@ == (false, None::<Seq<char>>),
    {
        Controller { proxy_running: false, tunnel_url: None }
    }

    /// Whether the proxy runs.
    pub fn proxy_status(&self) -> (b: bool)
        ensures
            b == self@.0,
    {
        self.proxy_running
    }

    /// The public URL of the tunnel, where one runs.
    pub fn tunnel_status(&self) -> (r: Option<String>)
        ensures
            opt_view(r) == self@.1,
    {
        match &self.tunnel_url {
            Some(u) => Some(u.clone()),
            None => None,
        }
    }

    /// Whether the proxy may start with `config`: not without an API key, and
    /// not twice.
    pub fn check_start_proxy(&self, config: &ProxyConfig) -> (r: Result<(), String>)
        ensures
            unit_view(r) == if config.api_key@.len() == 0 {
                unit_err("API key not configured"@)
            } else if self@.0 {
                unit_err("Proxy already running"@)
            } else {
                unit_ok()
            },
    {
        if config.api_key.as_str().is_empty() {
            return Err(String::from_str("API key not configured"));
        }
        if self.proxy_running {
            return Err(String::from_str("Proxy already running"));
        }
        Ok(())
    }

    /// The proxy has started.
    pub fn proxy_started(&mut self)
        ensures
            final(self)@ == (true, old(self)@.1),
    {
        self.proxy_running = true;
    }

    /// Stops whatever runs. Gives the URL of the tunnel to close, where one
    /// ran, and the command's answer: an error where no proxy ran.
    pub fn stop_proxy(&mut self) -> (r: (Option<String>, Result<(), String>))
        ensures
            final(self)@ == (false, None::<Seq<char>>),
            opt_view(r.0) == old(self)@.1,
            unit_view(r.1) == if old(self)@.0 {
                unit_ok()
            } else {
                unit_err("Proxy not running"@)
            },
    {
        let tunnel = self.tunnel_url.take();
        if self.proxy_running {
            self.proxy_running = false;
            (tunnel, Ok(()))
        } else {
            (tunnel, Err(String::from_str("Proxy not running")))
        }
    }

    /// Whether a tunnel may start: not while one runs.
    pub fn check_start_tunnel(&self) -> (r: Result<(), String>)
        ensures
            unit_view(r) == if self@.1 is Some {
                unit_err("Tunnel already running"@)
            } else {
                unit_ok()
            },
    {
        if self.tunnel_url.is_some() {
            Err(String::from_str("Tunnel already running"))
        } else {
            Ok(())
        }
    }

    /// Records the outcome of starting a tunnel: `received` is the URL read
    /// from the tunnel's output, or `None` where none came in time. An empty
    /// URL is a failure too; on success the tunnel runs with that URL.
    pub fn tunnel_started(&mut self, received: Option<String>) -> (r: Result<String, String>)
        ensures
            text_view(r) == match received {
                None => text_err("Timeout waiting for tunnel URL"@),
                Some(u) => if u@.len() == 0 {
                    text_err("Failed to get public URL from tunelo"@)
                } else {
                    text_ok(u@)
                },
            },
            final(self)@ == if r is Ok {
                (old(self)@.0, Some(r->Ok_0@))
            } else {
                old(self)@
            },
    {
        match received {
            None => Err(String::from_str("Timeout waiting for tunnel URL")),
            Some(u) => {
                if u.as_str().is_empty() {
                    Err(String::from_str("Failed to get public URL from tunelo"))
                } else {
                    self.tunnel_url = Some(u.clone());
                    Ok(u)
                }
            },
        }
    }

    /// Stops the tunnel: its URL, or an error where none runs. Afterwards no
    /// tunnel runs.
    pub fn stop_tunnel(&mut self) -> (r: Result<String, String>)
        ensures
            final(self)@ == (old(self)@.0, None::<Seq<char>>),
            text_view(r) == match old(self)@.1 {
                Some(u) => text_ok(u),
                None => text_err("Tunnel not running"@),
            },
    {
        match self.tunnel_url.take() {
            Some(u) => Ok(u),
            None => Err(String::from_str("Tunnel not running")),
        }
    }
}


/// The address clients use to reach the proxy: `http://{ip}:{port}/v1`, with
/// `localhost` where the local address is not known.
pub open spec fn spec_proxy_url(local_ip: Option<Seq<char>>, port: u16) -> Seq<char> {
    let host = match local_ip {
        Some(ip) => ip,
        None => "localhost"@,
    };
    "http://"@ + host + ":"@ + decimal(port as nat) + "/v1"@
}

pub fn proxy_url(local_ip: Option<String>, port: u16) -> (r: String)
    ensures
        r@ == spec_proxy_url(opt_view(local_ip), port),
{
    let mut url = String::from_str("http://");
    match &local_ip {
        Some(ip) => url.append(ip.as_str()),
        None => url.append("localhost"),
    }
    url.append(":");
    let digits = string_from_chars(&decimal_chars(port as u64));
    url.append(digits.as_str());
    url.append("/v1");
    url
}

/// The relay address handed to the tunnel client: the relay host on port 4433.
pub fn relay_address(relay: &str) -> (r: String)
    ensures
        r@ == relay@ + ":4433"@,
{
    let mut a = String::from_str(relay);
    a.append(":4433");
    a
}

/// Name of the tunnel client's executable for a platform.
pub open spec fn spec_tunelo_binary(os: Seq<char>, arch: Seq<char>, windows: bool) -> Seq<char> {
    let base = "tunelo-"@ + os + "-"@ + arch;
    if windows {
        base + ".exe"@
    } else {
        base
    }
}

pub fn tunelo_binary_name(os: &str, arch: &str, windows: bool) -> (r: String)
    ensures
        r@ == spec_tunelo_binary(os@, arch@, windows),
{
    let mut n = String::from_str("tunelo-");
    n.append(os);
    n.append("-");
    n.append(arch);
    if windows {
        n.append(".exe");
    }
    n
}

/// The operating system the program runs on, as far as the tunnel client's
/// downloads go.
pub enum TargetOs {
    Linux,
    MacOs,
    Windows,
    Other,
}

/// The tunnel client to download for a platform: Linux and Windows on amd64,
/// macOS on arm64 or amd64; none for other systems.
pub open spec fn spec_tunelo_binary_for(os: TargetOs, aarch64: bool) -> Result<Seq<char>, Seq<char>> {
    match os {
        TargetOs::Linux => text_ok(spec_tunelo_binary("linux"@, "amd64"@, false)),
        TargetOs::MacOs => text_ok(spec_tunelo_binary("macos"@, if aarch64 { "arm64"@ } else { "amd64"@ }, false)),
        TargetOs::Windows => text_ok(spec_tunelo_binary("windows"@, "amd64"@, true)),
        TargetOs::Other => text_err("Unsupported platform"@),
    }
}

pub fn tunelo_binary_for(os: TargetOs, aarch64: bool) -> (r: Result<String, String>)
    ensures
        text_view(r) == spec_tunelo_binary_for(os, aarch64),
{
    match os {
        TargetOs::Linux => Ok(tunelo_binary_name("linux", "amd64", false)),
        TargetOs::MacOs => {
            if aarch64 {
                Ok(tunelo_binary_name("macos", "arm64", false))
            } else {
                Ok(tunelo_binary_name("macos", "amd64", false))
            }
        },
        TargetOs::Windows => Ok(tunelo_binary_name("windows", "amd64", true)),
        TargetOs::Other => Err(String::from_str("Unsupported platform")),
    }
}

/// Where the tunnel client's executable `binary` is downloaded from.
pub fn tunelo_download_url(binary: &str) -> (r: String)
    ensures
        r@ == "https://ren.im/tunelo/"@ + binary@,
{
    let mut u = String::from_str("https://ren.im/tunelo/");
    u.append(binary);
    u
}

/// The marker before the public URL in the tunnel client's output.
pub open spec fn url_marker() -> Seq<char> {
    "Public URL:"@
}

/// The URL announced by the first line of `ls` that holds the marker; empty
/// where no line does.
pub open spec fn url_in_lines(ls: Seq<Seq<char>>) -> Seq<char>
    decreases ls.len(),
{
    if ls.len() == 0 {
        Seq::empty()
    } else {
        match after_marker(ls[0], url_marker()) {
            Some(u) => u,
            None => url_in_lines(ls.drop_first()),
        }
    }
}

/// The public URL that a chunk of the tunnel client's output announces: empty
/// where the chunk is not UTF-8 or announces none.
pub open spec fn spec_public_url(chunk: Seq<u8>) -> Seq<char> {
    if valid_utf8(chunk) {
        url_in_lines(lines(decode_utf8(chunk)))
    } else {
        Seq::empty()
    }
}

/// `str::from_utf8`, as characters: the text where `bytes` are valid UTF-8.
#[verifier::external_body]
fn utf8_text(bytes: &[u8]) -> (r: Option<Vec<char>>)
    ensures
        r is Some <==> valid_utf8(bytes@),
        r matches Some(t) ==> t@ == decode_utf8(bytes@),
{
    match std::str::from_utf8(bytes) {
        Ok(s) => Some(s.chars().collect()),
        Err(_) => None,
    }
}

fn url_after_marker(line: &Vec<char>, marker: &Vec<char>) -> (r: Option<Vec<char>>)
    ensures
        r matches Some(u) ==> after_marker(line@, marker@) == Some(u@),
        r is None ==> after_marker(line@, marker@) is None,
{
    match find_sub(line, marker, 0) {
        None => None,
        Some(k1) => {
            let total = line.len();
            assert(k1 + marker@.len() <= total);
            let st = k1 + marker.len();
            let end = match find_sub(line, marker, st) {
                Some(k2) => k2,
                None => line.len(),
            };
            let seg = crate::text::copy_range(line, st, end);
            Some(trim_chars(&seg))
        },
    }
}

/// The public URL that a chunk of the tunnel client's output announces, or
/// an empty string.
pub fn public_url_in_output(chunk: &[u8]) -> (r: String)
    ensures
        r@ == spec_public_url(chunk@),
{
    let text = match utf8_text(chunk) {
        Some(t) => t,
        None => return String::new(),
    };
    let ls = split_lines(&text);
    let marker = chars_of("Public URL:");
    let ghost all = views(ls@);
    assert(all.subrange(0, all.len() as int) =~= all);
    let mut i: usize = 0;
    while i < ls.len()
        invariant
            i <= ls@.len(),
            all == views(ls@),
            all == lines(text@),
            text@ == decode_utf8(chunk@),
            valid_utf8(chunk@),
            marker@ == url_marker(),
            url_in_lines(all) == url_in_lines(all.subrange(i as int, all.len() as int)),
        decreases ls@.len() - i,
    {
        let ghost rest = all.subrange(i as int, all.len() as int);
        assert(rest[0] == ls@[i as int]@);
        assert(rest.drop_first() =~= all.subrange(i + 1, all.len() as int));
        match url_after_marker(&ls[i], &marker) {
            Some(u) => {
                assert(url_in_lines(rest) == u@);
                return string_from_chars(&u);
            },
            None => {},
        }
        i = i + 1;
    }
    String::new()
}


/// How long the tunnel client's output is read before giving up, in nanoseconds.
pub const TUNNEL_READ_TIMEOUT_NANOS: u64 = 30_000_000_000;

/// Whether reading the tunnel client's output has gone on too long: strictly
/// more than 30 seconds since it began.
pub fn tunnel_read_timed_out(elapsed_nanos: u64) -> (b: bool)
    ensures
        b == (elapsed_nanos > TUNNEL_READ_TIMEOUT_NANOS),
{
    elapsed_nanos > TUNNEL_READ_TIMEOUT_NANOS
}

/// What one read of the tunnel client's output gave.
pub enum TunnelRead {
    /// The output ended.
    End,
    /// The read failed.
    Failed,
    /// A chunk of output.
    Chunk(Vec<u8>),
}

/// What the reader does next: read again, or stop with the URL found (empty
/// where none was).
pub enum TunnelStep {
    ReadAgain,
    Stop(String),
}

pub open spec fn spec_tunnel_step(read: TunnelRead) -> Option<Seq<char>> {
    match read {
        TunnelRead::End => Some(Seq::empty()),
        TunnelRead::Failed => Some(Seq::empty()),
        TunnelRead::Chunk(c) => {
            let u = spec_public_url(c@);
            if u.len() == 0 {
                None
            } else {
                Some(u)
            }
        },
    }
}

/// The reader's next step after a read: stop at the end of the output or on
/// a failed read (no URL), stop once a chunk announces a URL, else read again.
/// `None` in the spec stands for reading again.
pub fn tunnel_step(read: TunnelRead) -> (r: TunnelStep)
    ensures
        spec_tunnel_step(read) == match r {
            TunnelStep::ReadAgain => None,
            TunnelStep::Stop(u) => Some(u@),
        },
{
    match read {
        TunnelRead::End => TunnelStep::Stop(String::new()),
        TunnelRead::Failed => TunnelStep::Stop(String::new()),
        TunnelRead::Chunk(c) => {
            let u = public_url_in_output(c.as_slice());
            if u.as_str().is_empty() {
                TunnelStep::ReadAgain
            } else {
                TunnelStep::Stop(u)
            }
        },
    }
}

} // verus!
