use vstd::prelude::*;

use crate::bytes::same_bytes;

verus! {

/// Whether log output is coloured.
#[derive(Debug, Clone, Copy, PartialEq, Eq, Structural)]
pub enum LogStyle {
    /// Colour when standard output is a terminal.
    Auto,
    Always,
    Never,
}

/// The UTF-8 bytes of `s` lower-cased by Unicode's rules.
pub uninterp spec fn lower_of(s: Seq<char>) -> Seq<u8>;

pub open spec fn auto_word() -> Seq<u8> {
    seq![97u8, 117, 116, 111]
}

pub open spec fn always_word() -> Seq<u8> {
    seq![97u8, 108, 119, 97, 121, 115]
}

pub open spec fn never_word() -> Seq<u8> {
    seq![110u8, 101, 118, 101, 114]
}

/// The style a lower-cased setting names: `auto`, `always` or `never`.
pub open spec fn style_named(b: Seq<u8>) -> Option<LogStyle> {
    if b == auto_word() {
        Some(LogStyle::Auto)
    } else if b == always_word() {
        Some(LogStyle::Always)
    } else if b == never_word() {
        Some(LogStyle::Never)
    } else {
        None
    }
}

/// Relies on str::to_lowercase: the result depends on the characters alone.
#[verifier::external_body]
fn lowercase(s: &str) -> (r: Vec<u8>)
    ensures
        r@ == lower_of(s@),
{
    s.to_lowercase().into_bytes()
}

impl Default for LogStyle {
    fn default() -> (r: Self)
        ensures
            r == LogStyle::Auto,
    {
        LogStyle::Auto
    }
}

impl LogStyle {
    /// Whether to colour, given whether standard output is a terminal.
    pub fn is_color(&self, stdout_is_terminal: bool) -> (r: bool)
        ensures
            r == match self {
                LogStyle::Auto => stdout_is_terminal,
                LogStyle::Always => true,
                LogStyle::Never => false,
            },
    {
        match self {
            LogStyle::Auto => stdout_is_terminal,
            LogStyle::Always => true,
            LogStyle::Never => false,
        }
    }

    /// The style an already lower-cased setting names, if any.
    pub fn from_lower(b: &[u8]) -> (r: Option<LogStyle>)
        ensures
            r == style_named(b@),
    {
        let auto: Vec<u8> = vec![97u8, 117, 116, 111];
        let always: Vec<u8> = vec![97u8, 108, 119, 97, 121, 115];
        let never: Vec<u8> = vec![110u8, 101, 118, 101, 114];
        assert(auto@ =~= auto_word());
        assert(always@ =~= always_word());
        assert(never@ =~= never_word());
        if same_bytes(b, auto.as_slice()) {
            Some(LogStyle::Auto)
        } else if same_bytes(b, always.as_slice()) {
            Some(LogStyle::Always)
        } else if same_bytes(b, never.as_slice()) {
            Some(LogStyle::Never)
        } else {
            None
        }
    }

    /// The style a setting names, in any case; `None` for any other word.
    pub fn parse(s: &str) -> (r: Option<LogStyle>)
        ensures
            r == style_named(lower_of(s@)),
    {
        let low = lowercase(s);
        LogStyle::from_lower(low.as_slice())
    }
}

/// Logging settings.
pub struct Log {
    /// The filter directive.
    pub level: String,
    pub style: LogStyle,
}

impl Log {
    /// The default filter directive, `mikan=info`.
    pub fn level() -> (r: String)
        ensures
            r@ == "mikan=info"@,
    {
        "mikan=info".to_owned()
    }
}

impl Default for Log {
    fn default() -> (r: Self)
        ensures
            r.level@ == "mikan=info"@,
            r.style == LogStyle::Auto,
    {
        Log { level: Log::level(), style: LogStyle::Auto }
    }
}

/// The decimal digits of `n`.
pub open spec fn decimal(n: nat) -> Seq<u8>
    decreases n,
{
    if n < 10 {
        seq![(48 + n) as u8]
    } else {
        decimal(n / 10).push((48 + n % 10) as u8)
    }
}

/// `n` written in decimal, with a leading `-` when negative.
pub open spec fn signed_decimal(n: int) -> Seq<u8> {
    if n < 0 {
        seq![45u8] + decimal((-n) as nat)
    } else {
        decimal(n as nat)
    }
}

pub open spec fn true_word() -> Seq<u8> {
    seq![116u8, 114, 117, 101]
}

pub open spec fn false_word() -> Seq<u8> {
    seq![102u8, 97, 108, 115, 101]
}

/// A token setting as the configuration source gave it.
pub enum TokenValue {
    /// No token: every request passes.
    Missing,
    Text(Vec<u8>),
    Int(i64),
    UInt(u64),
    Bool(bool),
}

/// The token that a setting stands for, in its text form.
pub open spec fn token_text(v: TokenValue) -> Option<Seq<u8>> {
    match v {
        TokenValue::Missing => None,
        TokenValue::Text(b) => Some(b@),
        TokenValue::Int(n) => Some(signed_decimal(n as int)),
        TokenValue::UInt(n) => Some(decimal(n as nat)),
        TokenValue::Bool(b) => Some(
            if b {
                true_word()
            } else {
                false_word()
            },
        ),
    }
}

fn write_decimal(n: u64, out: &mut Vec<u8>)
    ensures
        final(out)@ == old(out)@ + decimal(n as nat),
    decreases n,
{
    if n >= 10 {
        write_decimal(n / 10, out);
    }
    out.push(48u8 + (n % 10) as u8);
    assert(final(out)@ =~= old(out)@ + decimal(n as nat));
}

/// Puts a token setting into its text form, once, when the configuration is read.
pub fn normalize_token(v: TokenValue) -> (r: Option<Vec<u8>>)
    ensures
        match r {
            Some(b) => token_text(v) == Some(b@),
            None => token_text(v) is None,
        },
{
    match v {
        TokenValue::Missing => None,
        TokenValue::Text(b) => Some(b),
        TokenValue::Int(n) => {
            let mut out: Vec<u8> = Vec::new();
            if n < 0 {
                out.push(45u8);
                let m: u64 = (-(n as i128)) as u64;
                write_decimal(m, &mut out);
            } else {
                write_decimal(n as u64, &mut out);
            }
            assert(out@ =~= signed_decimal(n as int));
            Some(out)
        },
        TokenValue::UInt(n) => {
            let mut out: Vec<u8> = Vec::new();
            write_decimal(n, &mut out);
            assert(out@ =~= decimal(n as nat));
            Some(out)
        },
        TokenValue::Bool(b) => {
            let out: Vec<u8> = if b {
                vec![116u8, 114, 117, 101]
            } else {
                vec![102u8, 97, 108, 115, 101]
            };
            assert(b ==> out@ =~= true_word());
            assert(!b ==> out@ =~= false_word());
            Some(out)
        },
    }
}

/// Whether `b` is UTF-8 text that parses as an absolute URL.
pub uninterp spec fn url_parses(b: Seq<u8>) -> bool;

/// Relies on std::str::from_utf8 for the text and on reqwest::Url::parse for the
/// URL: the answer depends on the bytes alone.
#[verifier::external_body]
fn parses_as_url(b: &[u8]) -> (r: bool)
    ensures
        r == url_parses(b@),
{
    match std::str::from_utf8(b) {
        Ok(s) => reqwest::Url::parse(s).is_ok(),
        Err(_) => false,
    }
}

/// `http://`.
pub open spec fn http_scheme() -> Seq<u8> {
    seq![104u8, 116, 116, 112, 58, 47, 47]
}

/// The public origin: the configured URL, or, where none is set, `http://`
/// followed by the listen address.
pub open spec fn public_url(url: Seq<u8>, addr: Seq<u8>) -> Seq<u8> {
    if url.len() == 0 {
        http_scheme() + addr
    } else {
        url
    }
}

/// `127.0.0.1:3030`.
pub open spec fn default_addr() -> Seq<u8> {
    seq![49u8, 50, 55, 46, 48, 46, 48, 46, 49, 58, 51, 48, 51, 48]
}

/// The settings the proxy runs with.
pub struct Config {
    /// The shared secret; `None` lets every request through.
    pub token: Option<Vec<u8>>,
    pub log: Log,
    /// The listen address, as `host:port`.
    pub addr: Vec<u8>,
    /// The public origin that rewritten bodies point at.
    pub url: Vec<u8>,
}

/// Why the configuration was refused.
#[derive(Debug, Clone, Copy, PartialEq, Eq, Structural)]
pub enum ConfigError {
    /// The public origin is not an absolute URL.
    InvalidUrl,
}

impl Default for Config {
    fn default() -> (r: Self)
        ensures
            r.token is None,
            r.log.level@ == "mikan=info"@,
            r.log.style == LogStyle::Auto,
            r.addr@ == default_addr(),
            r.url@.len() == 0,
    {
        Config { token: None, log: Log::default(), addr: Config::addr(), url: Config::url() }
    }
}

impl Config {
    /// The default listen address, `127.0.0.1:3030`.
    pub fn addr() -> (r: Vec<u8>)
        ensures
            r@ == default_addr(),
    {
        let r: Vec<u8> = vec![49u8, 50, 55, 46, 48, 46, 48, 46, 49, 58, 51, 48, 51, 48];
        assert(r@ =~= default_addr());
        r
    }

    /// The default public origin: none, so it is derived from the address.
    pub fn url() -> (r: Vec<u8>)
        ensures
            r@.len() == 0,
    {
        Vec::new()
    }

    /// Completes the settings once, before any request: fills in the public
    /// origin where none is set, and refuses one that is not an absolute URL.
    pub fn finish(self) -> (r: Result<Config, ConfigError>)
        ensures
            url_parses(public_url(self.url@, self.addr@)) ==> (r matches Ok(c)
                && c.url@ == public_url(self.url@, self.addr@) && c.addr@ == self.addr@
                && crate::gate::opt_view(c.token) == crate::gate::opt_view(self.token)
                && c.log.level@ == self.log.level@ && c.log.style == self.log.style),
            !url_parses(public_url(self.url@, self.addr@)) ==> r == Err::<Config, ConfigError>(
                ConfigError::InvalidUrl,
            ),
    {
        let mut c = self;
        if c.url.len() == 0 {
            let mut url: Vec<u8> = vec![104u8, 116, 116, 112, 58, 47, 47];
            assert(url@ =~= http_scheme());
            let mut k: usize = 0;
            while k < c.addr.len()
                invariant
                    k <= c.addr@.len(),
                    url@ == http_scheme() + c.addr@.subrange(0, k as int),
                decreases c.addr@.len() - k,
            {
                url.push(c.addr[k]);
                k = k + 1;
                assert(url@ =~= http_scheme() + c.addr@.subrange(0, k as int));
            }
            assert(c.addr@.subrange(0, c.addr@.len() as int) =~= c.addr@);
            c.url = url;
        }
        if parses_as_url(c.url.as_slice()) {
            Ok(c)
        } else {
            Err(ConfigError::InvalidUrl)
        }
    }
}

} // verus!
