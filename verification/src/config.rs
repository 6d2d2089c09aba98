use vstd::prelude::*;
use vstd::string::{StrSliceExecFns, StringExecFns};

verus! {

/// The port the HTTP interface listens on unless configured otherwise.
pub const DEFAULT_PORT: u16 = 8080;

/// The Redis URL used unless configured otherwise.
pub open spec fn default_redis_spec() -> Seq<char> {
    "redis://127.0.0.1:6379"@
}

/// The pub/sub channel used unless configured otherwise.
pub open spec fn default_channel_spec() -> Seq<char> {
    "akela:events"@
}

/// The Redis URL used unless configured otherwise.
pub fn default_redis_url() -> (s: String)
    ensures
        s@ == default_redis_spec(),
{
    String::from_str("redis://127.0.0.1:6379")
}

/// The pub/sub channel shared by the instances of a hub unless
/// configured otherwise.
pub fn default_channel() -> (s: String)
    ensures
        s@ == default_channel_spec(),
{
    String::from_str("akela:events")
}

/// Whether `c` is an ASCII decimal digit.
pub open spec fn is_digit(c: char) -> bool {
    '0' <= c && c <= '9'
}

/// The number written by the decimal digits `s`.
pub open spec fn digits_value(s: Seq<char>) -> nat
    decreases s.len(),
{
    if s.len() == 0 {
        0
    } else {
        digits_value(s.drop_last()) * 10 + ((s.last() as u32) - ('0' as u32)) as nat
    }
}

/// `s` without one leading `+`, if it has one.
pub open spec fn unsigned_part(s: Seq<char>) -> Seq<char> {
    if s.len() > 0 && s[0] == '+' {
        s.drop_first()
    } else {
        s
    }
}

/// Whether every character of `d` is a decimal digit.
pub open spec fn all_digits(d: Seq<char>) -> bool {
    forall|i: int| 0 <= i < d.len() ==> is_digit(#[trigger] d[i])
}

/// The port number that `s` writes: an optional `+` followed by one or
/// more decimal digits whose value fits in 16 bits; anything else is no
/// port number.
pub open spec fn port_number(s: Seq<char>) -> Option<u16> {
    let d = unsigned_part(s);
    if d.len() > 0 && all_digits(d) && digits_value(d) <= 65535 {
        Some(digits_value(d) as u16)
    } else {
        None
    }
}

/// Reads a port number: an optional `+` and decimal digits, at most 65535.
pub fn parse_port(text: &str) -> (p: Option<u16>)
    ensures
        p == port_number(text@),
{
    let n = text.unicode_len();
    let mut i: usize = 0;
    if n > 0 && text.get_char(0) == '+' {
        i = 1;
    }
    let first = i;
    let ghost d = text@.subrange(first as int, n as int);
    proof {
        if n > 0 && text@[0] == '+' {
            assert(d =~= text@.drop_first());
        } else {
            assert(d =~= text@);
        }
    }
    if first == n {
        return None;
    }
    let mut value: u32 = 0;
    while i < n
        invariant
            first <= i <= n,
            n == text@.len(),
            d == text@.subrange(first as int, n as int),
            d == unsigned_part(text@),
            forall|k: int| first <= k < i ==> is_digit(#[trigger] text@[k]),
            value == (if digits_value(text@.subrange(first as int, i as int)) > 65535 {
                65536
            } else {
                digits_value(text@.subrange(first as int, i as int))
            }),
        decreases n - i,
    {
        let c = text.get_char(i);
        if !('0' <= c && c <= '9') {
            proof {
                assert(!is_digit(c));
                assert(d[(i - first) as int] == c);
                assert(!is_digit(d[(i - first) as int]));
            }
            return None;
        }
        let ghost prefix = text@.subrange(first as int, i as int);
        proof {
            assert(text@.subrange(first as int, i + 1).drop_last() =~= prefix);
            assert(text@.subrange(first as int, i + 1).last() == c);
        }
        let digit = (c as u32) - ('0' as u32);
        if value > 65535 {
            value = 65536;
        } else {
            let next = value * 10 + digit;
            value = if next > 65535 {
                65536
            } else {
                next
            };
        }
        i = i + 1;
    }
    proof {
        assert(text@.subrange(first as int, n as int) == d);
        assert forall|k: int| 0 <= k < d.len() implies is_digit(#[trigger] d[k]) by {
            assert(d[k] == text@[first + k]);
        }
    }
    if value > 65535 {
        None
    } else {
        Some(value as u16)
    }
}

/// Configuration read from a file; every field is optional.
pub struct FileConfig {
    pub port: Option<u16>,
    pub redis: Option<String>,
    pub channel: Option<String>,
}

/// The settings an instance runs with.
pub struct Settings {
    pub port: u16,
    pub redis: String,
    pub channel: String,
}

/// The first of an environment value, a file value and a default.
pub open spec fn first_of(env: Option<String>, file: Option<String>, default: Seq<char>) -> Seq<
    char,
> {
    match env {
        Some(v) => v@,
        None => match file {
            Some(v) => v@,
            None => default,
        },
    }
}

/// The port an instance listens on: an environment value that reads as a
/// port wins, then the file's value, then the default.
pub open spec fn chosen_port(env: Option<String>, file: Option<u16>) -> u16 {
    let from_file = match file {
        Some(p) => p,
        None => DEFAULT_PORT,
    };
    match env {
        Some(v) => match port_number(v@) {
            Some(p) => p,
            None => from_file,
        },
        None => from_file,
    }
}

fn pick(env: Option<String>, file: Option<String>, default: String) -> (s: String)
    ensures
        s@ == first_of(env, file, default@),
{
    match env {
        Some(v) => v,
        None => match file {
            Some(v) => v,
            None => default,
        },
    }
}

impl Settings {
    /// Resolves the settings: environment variables (`PORT`, `REDIS_URL`,
    /// `CHANNEL`) override the file, and built-in defaults cover anything
    /// left unset. A `PORT` that is not a port number is ignored.
    pub fn resolve(
        env_port: Option<String>,
        env_redis: Option<String>,
        env_channel: Option<String>,
        file: FileConfig,
    ) -> (s: Settings)
        ensures
            s.port == chosen_port(env_port, file.port),
            s.redis@ == first_of(env_redis, file.redis, default_redis_spec()),
            s.channel@ == first_of(env_channel, file.channel, default_channel_spec()),
    {
        let parsed = match &env_port {
            Some(v) => parse_port(v.as_str()),
            None => None,
        };
        let port = match parsed {
            Some(p) => p,
            None => match file.port {
                Some(p) => p,
                None => DEFAULT_PORT,
            },
        };
        let redis = pick(env_redis, file.redis, default_redis_url());
        let channel = pick(env_channel, file.channel, default_channel());
        Settings { port, redis, channel }
    }
}

/// The configuration file to read: an explicit path wins, then
/// `akela.yaml` in the working directory if it exists, then
/// `/etc/akela/akela.yaml` if it exists; otherwise none.
pub fn config_path(explicit: Option<String>, local_exists: bool, system_exists: bool) -> (p: Option<
    String,
>)
    ensures
        match explicit {
            Some(e) => p matches Some(q) && q@ == e@,
            None => if local_exists {
                p matches Some(q) && q@ == "akela.yaml"@
            } else if system_exists {
                p matches Some(q) && q@ == "/etc/akela/akela.yaml"@
            } else {
                p is None
            },
        },
{
    match explicit {
        Some(e) => Some(e),
        None => if local_exists {
            Some(String::from_str("akela.yaml"))
        } else if system_exists {
            Some(String::from_str("/etc/akela/akela.yaml"))
        } else {
            None
        },
    }
}

/// The character of a decimal digit `d`.
pub open spec fn digit_char(d: nat) -> char
    recommends
        d < 10,
{
    ((d + 48) as u32) as char
}

/// The decimal numeral of `n`, without leading zeros.
pub open spec fn decimal(n: nat) -> Seq<char>
    decreases n,
{
    if n < 10 {
        seq![digit_char(n)]
    } else {
        decimal(n / 10).push(digit_char(n % 10))
    }
}

/// The ten characters `0` to `9` are the digits, each worth its place in
/// that order.
pub proof fn law_ten_digits(d: nat)
    requires
        d < 10,
    ensures
        is_digit(digit_char(d)),
        digits_value(seq![digit_char(d)]) == d,
        digit_char(d) != '+',
{
    assert(seq![digit_char(d)].drop_last() =~= Seq::<char>::empty());
    assert(('0' as u32) == 48);
    assert((digit_char(d) as u32) == d + 48);
    assert(seq![digit_char(d)].last() == digit_char(d));
    assert(digits_value(Seq::<char>::empty()) == 0);
    assert(digits_value(seq![digit_char(d)].drop_last()) == 0);
}

proof fn lemma_decimal(n: nat)
    ensures
        decimal(n).len() > 0,
        all_digits(decimal(n)),
        digits_value(decimal(n)) == n,
        decimal(n)[0] != '+',
    decreases n,
{
    if n < 10 {
        law_ten_digits(n);
    } else {
        lemma_decimal(n / 10);
        law_ten_digits(n % 10);
        let d = decimal(n);
        assert(d.drop_last() =~= decimal(n / 10));
        assert(d[0] == decimal(n / 10)[0]);
        assert forall|i: int| 0 <= i < d.len() implies is_digit(#[trigger] d[i]) by {
            if i < d.len() - 1 {
                assert(d[i] == decimal(n / 10)[i]);
            }
        }
    }
}

/// Every port number, written in decimal, reads back as itself; so does
/// it with a leading `+`.
pub proof fn law_port_numbers_read_back(n: u16)
    ensures
        port_number(decimal(n as nat)) == Some(n),
        port_number(seq!['+'] + decimal(n as nat)) == Some(n),
{
    lemma_decimal(n as nat);
    assert(unsigned_part(decimal(n as nat)) == decimal(n as nat));
    assert(unsigned_part(seq!['+'] + decimal(n as nat)) =~= decimal(n as nat));
}

/// An environment value wins over the file and the default; without one
/// the file's value wins over the default; with neither the default is
/// used.
pub proof fn law_environment_over_file_over_default(
    env: String,
    file: String,
    default: Seq<char>,
)
    ensures
        forall|f: Option<String>| #[trigger] first_of(Some(env), f, default) == env@,
        first_of(None, Some(file), default) == file@,
        first_of(None, None, default) == default,
{
}

/// A `PORT` that reads as a port number is the port, whatever the file
/// says; without a readable `PORT` the file's port is used, and without
/// that the default.
pub proof fn law_port_precedence(env: String, file: Option<u16>, p: u16)
    ensures
        port_number(env@) == Some(p) ==> chosen_port(Some(env), file) == p,
        port_number(env@) is None ==> chosen_port(Some(env), file) == chosen_port(None, file),
        forall|q: u16| #[trigger] chosen_port(None, Some(q)) == q,
        chosen_port(None, None) == 8080,
{
}

} // verus!
