use std::collections::HashMap;
use std::sync::Arc;
use vstd::prelude::*;
use vstd::string::StringExecFns;

verus! {

/// The port of an endpoint whose configuration names none.
pub const DEFAULT_PORT: i64 = 8080;

/// A failed request to a tentacle.
#[derive(Debug, Clone, Copy, PartialEq, Eq, Structural)]
pub enum TentacleClientError {
    ClientError,
}

/// Why a configured tentacle endpoint could not be read.
#[derive(Debug, Clone, Copy, PartialEq, Eq, Structural)]
pub enum TentacleConfigError {
    /// The entry is not a table.
    NoTableError,
    /// The entry names no host.
    NoHostSpecified,
    IllegalHostError,
    IllegalPortError,
    IllegalProtocolError,
    IllegalAliasError,
    /// The settings hold no list of tentacles.
    NoTentacleList,
}

/// A tentacle endpoint.
#[derive(Clone, PartialEq, Debug)]
pub struct TentacleInfo {
    /// The name that tags the lines of this tentacle: its alias, else its host.
    pub name: String,
    pub host: String,
    pub port: i64,
    pub protocol: String,
}

/// One record of a tentacle's response body.
#[derive(Clone, Debug, PartialEq)]
pub struct TentacleLogLine {
    pub timestamp: i64,
    pub message: String,
    pub loglevel: Option<String>,
}

/// One line of a merged log stream.
#[derive(Clone, Debug, PartialEq)]
pub struct LogLine {
    /// Milliseconds since the epoch; drives all ordering.
    pub timestamp: i64,
    pub message: String,
    pub loglevel: Option<String>,
    /// The logical name of the log being tailed.
    pub id: String,
    /// The tentacle that produced the line.
    pub source: String,
}

/// A field of a configured endpoint, as the configuration gives it.
pub enum ConfigField<T> {
    Missing,
    /// Present, but not of the type the field needs.
    Invalid,
    Given(T),
}

/// The fan-out client: the endpoints a query goes to.
pub struct TentacleClient {
    tentacles: Vec<TentacleInfo>,
}

/// A client for a single tentacle on this machine.
pub struct Tentacle {}

#[verifier::external_type_specification]
#[verifier::external_body]
pub struct ExConfigValue(config::Value);

#[verifier::external_type_specification]
#[verifier::external_body]
pub struct ExConfig(config::Config);

/// What `urlparse::quote` makes of a string when no byte beyond its
/// always-safe set is allowed through.
pub uninterp spec fn url_quoted(s: Seq<char>) -> Seq<char>;

pub open spec fn digit_char(d: int) -> char {
    seq!['0', '1', '2', '3', '4', '5', '6', '7', '8', '9'][d]
}

/// The decimal digits of a natural number, most significant first.
pub open spec fn digits(n: nat) -> Seq<char>
    decreases n,
{
    if n < 10 {
        seq![digit_char(n as int)]
    } else {
        digits(n / 10).push(digit_char((n % 10) as int))
    }
}

/// An integer written in decimal, with a leading '-' when it is negative.
pub open spec fn decimal(n: int) -> Seq<char> {
    if n < 0 {
        seq!['-'] + digits((-n) as nat)
    } else {
        digits(n as nat)
    }
}

/// The one-character text of a decimal digit.
fn digit_text(d: u64) -> (r: &'static str)
    requires
        d < 10,
    ensures
        r@ == seq![digit_char(d as int)],
{
    proof {
        reveal_strlit("0");
        reveal_strlit("1");
        reveal_strlit("2");
        reveal_strlit("3");
        reveal_strlit("4");
        reveal_strlit("5");
        reveal_strlit("6");
        reveal_strlit("7");
        reveal_strlit("8");
        reveal_strlit("9");
    }
    match d {
        0 => "0",
        1 => "1",
        2 => "2",
        3 => "3",
        4 => "4",
        5 => "5",
        6 => "6",
        7 => "7",
        8 => "8",
        _ => "9",
    }
}

/// Appends the decimal digits of `n`.
fn append_digits(s: &mut String, n: u64)
    ensures
        final(s)@ == old(s)@ + digits(n as nat),
    decreases n,
{
    if n >= 10 {
        append_digits(s, n / 10);
    }
    s.append(digit_text(n % 10));
    proof {
        if n >= 10 {
            assert(old(s)@ + digits((n / 10) as nat) + seq![digit_char((n % 10) as int)] =~= old(s)@
                + digits(n as nat));
        } else {
            assert(digits(n as nat) == seq![digit_char(n as int)]);
        }
    }
}

/// An integer in decimal, with a leading '-' when it is negative.
fn decimal_text(n: i64) -> (r: String)
    ensures
        r@ == decimal(n as int),
{
    proof {
        reveal_strlit("-");
    }
    if n < 0 {
        let mut s = String::from_str("-");
        let magnitude: u64 = (0i128 - n as i128) as u64;
        append_digits(&mut s, magnitude);
        s
    } else {
        let mut s = String::new();
        append_digits(&mut s, n as u64);
        proof {
            assert(s@ =~= digits(n as nat));
        }
        s
    }
}

/// A natural number in decimal.
fn natural_text(n: u64) -> (r: String)
    ensures
        r@ == decimal(n as int),
{
    let mut s = String::new();
    append_digits(&mut s, n);
    proof {
        assert(s@ =~= digits(n as nat));
    }
    s
}

/// A character that `urlparse::quote(_, b"")` lets through: an ASCII letter
/// or digit, `_`, `.`, `-`, or the `%` of an escape.
pub open spec fn url_safe_char(c: char) -> bool {
    ('A' <= c <= 'Z') || ('a' <= c <= 'z') || ('0' <= c <= '9') || c == '_' || c == '.' || c
        == '-' || c == '%'
}

/// Relies on `urlparse::quote(s, b"")`: each byte outside the always-safe set
/// (ASCII letters and digits, `_`, `.`, `-`) becomes a `%XX` escape with upper
/// case hex digits, so the result is ASCII and the call cannot fail.
#[verifier::external_body]
fn quote_path_segment(s: &str) -> (r: String)
    ensures
        r@ == url_quoted(s@),
        forall|k: int| 0 <= k < r@.len() ==> url_safe_char(#[trigger] r@[k]),
{
    match urlparse::quote(s, b"") {
        Ok(q) => q,
        Err(_) => String::new(),
    }
}

/// What `config::Value::into_table` gives for a value: its entries, if it
/// is a table.
pub uninterp spec fn table_of(v: config::Value) -> Option<HashMap<String, config::Value>>;

/// What a copy of the value stored under `key` in a table is, if one is.
pub uninterp spec fn entry_at(t: HashMap<String, config::Value>, key: Seq<char>) -> Option<
    config::Value,
>;

/// What `config::Value::into_str` gives for a value: its text, if it has one.
pub uninterp spec fn str_of(v: config::Value) -> Option<String>;

/// What `config::Value::into_int` gives for a value: its integer, if it has one.
pub uninterp spec fn int_of(v: config::Value) -> Option<i64>;

/// How many values `config::Config::get_array` gives for the settings and a
/// key, if the key holds a list. Each call rebuilds the values, so only
/// whether there is a list and its length are fixed by the settings.
pub uninterp spec fn list_len(s: config::Config, key: Seq<char>) -> Option<nat>;

/// Relies on `config::Value::into_table`: the entries of a table value.
#[verifier::external_body]
fn value_into_table(v: config::Value) -> (r: Option<HashMap<String, config::Value>>)
    ensures
        r == table_of(v),
{
    v.into_table().ok()
}

/// Relies on `HashMap::get`: a copy of the value stored under `key`, if any.
#[verifier::external_body]
fn table_entry(table: &HashMap<String, config::Value>, key: &str) -> (r: Option<config::Value>)
    ensures
        r == entry_at(*table, key@),
{
    table.get(key).cloned()
}

/// Relies on `config::Value::into_str`: the value as a string, where it is one.
#[verifier::external_body]
fn value_into_str(v: config::Value) -> (r: Option<String>)
    ensures
        r == str_of(v),
{
    v.into_str().ok()
}

/// Relies on `config::Value::into_int`: the value as an integer, where it is one.
#[verifier::external_body]
fn value_into_int(v: config::Value) -> (r: Option<i64>)
    ensures
        r == int_of(v),
{
    v.into_int().ok()
}

/// Relies on `config::Config::get_array`: the list stored under `key`, if any.
#[verifier::external_body]
fn settings_array(settings: &config::Config, key: &str) -> (r: Option<Vec<config::Value>>)
    ensures
        (r is None) == (list_len(*settings, key@) is None),
        r matches Some(vs) ==> list_len(*settings, key@) == Some(vs@.len()),
{
    settings.get_array(key).ok()
}

/// A text field of a table entry.
pub open spec fn str_field(t: HashMap<String, config::Value>, key: Seq<char>) -> ConfigField<String> {
    match entry_at(t, key) {
        None => ConfigField::Missing,
        Some(x) => match str_of(x) {
            Some(s) => ConfigField::Given(s),
            None => ConfigField::Invalid,
        },
    }
}

/// An integer field of a table entry.
pub open spec fn int_field(t: HashMap<String, config::Value>, key: Seq<char>) -> ConfigField<i64> {
    match entry_at(t, key) {
        None => ConfigField::Missing,
        Some(x) => match int_of(x) {
            Some(i) => ConfigField::Given(i),
            None => ConfigField::Invalid,
        },
    }
}

/// The fields make an endpoint: a host is given and no field has the wrong type.
pub open spec fn fields_valid(
    host: ConfigField<String>,
    port: ConfigField<i64>,
    protocol: ConfigField<String>,
    alias: ConfigField<String>,
) -> bool {
    host is Given && !(port is Invalid) && !(protocol is Invalid) && !(alias is Invalid)
}

/// What reading an endpoint from the configured entry `v` gives: an error
/// if it is no table, else what its fields make.
pub open spec fn entry_gives(r: Result<TentacleInfo, TentacleConfigError>, v: config::Value) -> bool {
    match table_of(v) {
        None => r == Err::<TentacleInfo, TentacleConfigError>(TentacleConfigError::NoTableError),
        Some(t) => fields_give(
            r,
            str_field(t, "host"@),
            int_field(t, "port"@),
            str_field(t, "protocol"@),
            str_field(t, "alias"@),
        ),
    }
}

/// The configured entry `v` makes an endpoint.
pub open spec fn entry_valid(v: config::Value) -> bool {
    match table_of(v) {
        None => false,
        Some(t) => fields_valid(
            str_field(t, "host"@),
            int_field(t, "port"@),
            str_field(t, "protocol"@),
            str_field(t, "alias"@),
        ),
    }
}

/// Reading an entry succeeds exactly when the entry makes an endpoint.
pub proof fn lemma_entry_ok_iff_valid(r: Result<TentacleInfo, TentacleConfigError>, v: config::Value)
    requires
        entry_gives(r, v),
    ensures
        r is Ok <==> entry_valid(v),
{
}

/// What a client read from the configured entries `vals` is: made exactly
/// when every entry makes an endpoint, and then of those endpoints in order;
/// else the error of the first entry that makes none.
pub open spec fn entries_give(
    r: Result<TentacleClient, TentacleConfigError>,
    vals: Seq<config::Value>,
) -> bool {
    &&& (r is Ok <==> forall|i: int| 0 <= i < vals.len() ==> entry_valid(#[trigger] vals[i]))
    &&& r matches Ok(c) ==> {
        &&& c.endpoints().len() == vals.len()
        &&& forall|i: int|
            0 <= i < vals.len() ==> entry_gives(
                Ok::<TentacleInfo, TentacleConfigError>(#[trigger] c.endpoints()[i]),
                vals[i],
            )
    }
    &&& r matches Err(e) ==> exists|i: int|
        0 <= i < vals.len() && entry_gives(Err::<TentacleInfo, TentacleConfigError>(e), vals[i])
            && forall|j: int| 0 <= j < i ==> entry_valid(#[trigger] vals[j])
}

/// The address of the content of log `log` at the tentacle on this machine.
pub open spec fn local_content_url_text(log: Seq<char>) -> Seq<char> {
    "http://localhost:8080/api/v1/sources/"@ + url_quoted(log) + "/content"@
}

pub open spec fn uri_text(t: TentacleInfo) -> Seq<char> {
    t.protocol@ + "://"@ + t.host@ + ":"@ + decimal(t.port as int)
}

/// The query of a content request: the start time and, if given, the levels.
pub open spec fn filter_text(from_ms: u64, loglevels: Option<String>) -> Seq<char> {
    "?from_ms="@ + decimal(from_ms as int) + match loglevels {
        Some(f) => "&loglevels="@ + f@,
        None => Seq::empty(),
    }
}

/// The address of the content of log `id` at tentacle `t`.
pub open spec fn content_url_text(
    t: TentacleInfo,
    id: Seq<char>,
    from_ms: u64,
    loglevels: Option<String>,
) -> Seq<char> {
    uri_text(t) + "/api/v1/sources/"@ + url_quoted(id) + "/content"@ + filter_text(
        from_ms,
        loglevels,
    )
}

/// What the fields of an endpoint entry make: the first field that is
/// present with the wrong type decides the error; a missing port, protocol
/// or alias takes its default.
pub open spec fn fields_give(
    r: Result<TentacleInfo, TentacleConfigError>,
    host: ConfigField<String>,
    port: ConfigField<i64>,
    protocol: ConfigField<String>,
    alias: ConfigField<String>,
) -> bool {
    match host {
        ConfigField::Missing => r == Err::<TentacleInfo, TentacleConfigError>(
            TentacleConfigError::NoHostSpecified,
        ),
        ConfigField::Invalid => r == Err::<TentacleInfo, TentacleConfigError>(
            TentacleConfigError::IllegalHostError,
        ),
        ConfigField::Given(h) => if port is Invalid {
            r == Err::<TentacleInfo, TentacleConfigError>(TentacleConfigError::IllegalPortError)
        } else if protocol is Invalid {
            r == Err::<TentacleInfo, TentacleConfigError>(
                TentacleConfigError::IllegalProtocolError,
            )
        } else if alias is Invalid {
            r == Err::<TentacleInfo, TentacleConfigError>(TentacleConfigError::IllegalAliasError)
        } else {
            &&& r is Ok
            &&& r->Ok_0.host@ == h@
            &&& r->Ok_0.port == match port {
                ConfigField::Given(p) => p,
                _ => DEFAULT_PORT,
            }
            &&& r->Ok_0.protocol@ == match protocol {
                ConfigField::Given(p) => p@,
                _ => "http"@,
            }
            &&& r->Ok_0.name@ == match alias {
                ConfigField::Given(a) => a@,
                _ => h@,
            }
        },
    }
}

impl TentacleInfo {
    /// `protocol://host:port`.
    pub fn uri(&self) -> (r: String)
        ensures
            r@ == uri_text(*self),
    {
        proof {
            reveal_strlit("://");
            reveal_strlit(":");
        }
        let mut s = self.protocol.clone();
        s.append("://");
        s.append(self.host.as_str());
        s.append(":");
        let port = decimal_text(self.port);
        s.append(port.as_str());
        s
    }

    /// The address of the content of log `id` at this tentacle, from
    /// `from_ms` on and, if given, of the levels in `loglevels` only.
    pub fn content_url(&self, id: &str, from_ms: u64, loglevels: &Option<String>) -> (r: String)
        ensures
            r@ == content_url_text(*self, id@, from_ms, *loglevels),
            forall|k: int| 0 <= k < url_quoted(id@).len() ==> url_safe_char(#[trigger] url_quoted(id@)[k]),
    {
        proof {
            reveal_strlit("/api/v1/sources/");
            reveal_strlit("/content");
            reveal_strlit("?from_ms=");
            reveal_strlit("&loglevels=");
        }
        let mut url = self.uri();
        url.append("/api/v1/sources/");
        let quoted = quote_path_segment(id);
        url.append(quoted.as_str());
        url.append("/content");
        url.append("?from_ms=");
        let from = natural_text(from_ms);
        url.append(from.as_str());
        match loglevels {
            Some(f) => {
                url.append("&loglevels=");
                url.append(f.as_str());
            },
            None => {},
        }
        proof {
            assert(url@ =~= content_url_text(*self, id@, from_ms, *loglevels));
        }
        url
    }
}

impl TentacleLogLine {
    /// The record as a line of log `id` from the tentacle named `source`.
    pub fn into_log_line(self, id: &String, source: &String) -> (r: LogLine)
        ensures
            r.timestamp == self.timestamp,
            r.message == self.message,
            r.loglevel == self.loglevel,
            r.id == *id,
            r.source == *source,
    {
        LogLine {
            timestamp: self.timestamp,
            message: self.message,
            loglevel: self.loglevel,
            id: id.clone(),
            source: source.clone(),
        }
    }
}

impl TentacleClient {
    /// The endpoints, in configured order.
    pub closed spec fn endpoints(&self) -> Seq<TentacleInfo> {
        self.tentacles@
    }

    /// The endpoints, in configured order.
    pub fn tentacles(&self) -> (r: &Vec<TentacleInfo>)
        ensures
            r@ == self.endpoints(),
    {
        &self.tentacles
    }

    /// Builds an endpoint from its fields.
    pub fn tentacle_from_fields(
        host: ConfigField<String>,
        port: ConfigField<i64>,
        protocol: ConfigField<String>,
        alias: ConfigField<String>,
    ) -> (r: Result<TentacleInfo, TentacleConfigError>)
        ensures
            fields_give(r, host, port, protocol, alias),
    {
        proof {
            reveal_strlit("http");
        }
        let host = match host {
            ConfigField::Missing => {
                return Err(TentacleConfigError::NoHostSpecified);
            },
            ConfigField::Invalid => {
                return Err(TentacleConfigError::IllegalHostError);
            },
            ConfigField::Given(h) => h,
        };
        let port = match port {
            ConfigField::Missing => DEFAULT_PORT,
            ConfigField::Invalid => {
                return Err(TentacleConfigError::IllegalPortError);
            },
            ConfigField::Given(p) => p,
        };
        let protocol = match protocol {
            ConfigField::Missing => String::from_str("http"),
            ConfigField::Invalid => {
                return Err(TentacleConfigError::IllegalProtocolError);
            },
            ConfigField::Given(p) => p,
        };
        let name = match alias {
            ConfigField::Missing => host.clone(),
            ConfigField::Invalid => {
                return Err(TentacleConfigError::IllegalAliasError);
            },
            ConfigField::Given(a) => a,
        };
        Ok(TentacleInfo { name, host, port, protocol })
    }

    /// Reads an endpoint from one entry of the configured list of tentacles.
    pub fn parse_tentacle(v: config::Value) -> (r: Result<TentacleInfo, TentacleConfigError>)
        ensures
            entry_gives(r, v),
    {
        proof {
            reveal_strlit("host");
            reveal_strlit("port");
            reveal_strlit("protocol");
            reveal_strlit("alias");
        }
        match value_into_table(v) {
            None => Err(TentacleConfigError::NoTableError),
            Some(table) => {
                let host = string_field(&table, "host");
                let port = match table_entry(&table, "port") {
                    None => ConfigField::Missing,
                    Some(p) => match value_into_int(p) {
                        Some(p) => ConfigField::Given(p),
                        None => ConfigField::Invalid,
                    },
                };
                let protocol = string_field(&table, "protocol");
                let alias = string_field(&table, "alias");
                TentacleClient::tentacle_from_fields(host, port, protocol, alias)
            },
        }
    }

    /// A client for the endpoints listed under `tentacles` in the settings, in
    /// order; the first entry that makes no endpoint decides the error.
    pub fn from_settings(settings: Arc<config::Config>) -> (r: Result<
        TentacleClient,
        TentacleConfigError,
    >)
        ensures
            match list_len(*settings, "tentacles"@) {
                None => r == Err::<TentacleClient, TentacleConfigError>(
                    TentacleConfigError::NoTentacleList,
                ),
                Some(len) => exists|vals: Seq<config::Value>|
                    vals.len() == len && #[trigger] entries_give(r, vals),
            },
    {
        proof {
            reveal_strlit("tentacles");
        }
        let mut values = match settings_array(&*settings, "tentacles") {
            None => {
                return Err(TentacleConfigError::NoTentacleList);
            },
            Some(values) => values,
        };
        let ghost vals = values@;
        let mut parsed: Vec<Result<TentacleInfo, TentacleConfigError>> = Vec::new();
        while values.len() > 0
            invariant
                list_len(*settings, "tentacles"@) == Some(vals.len()),
                parsed@.len() <= vals.len(),
                values@ == vals.skip(parsed@.len() as int),
                forall|i: int| 0 <= i < parsed@.len() ==> entry_gives(#[trigger] parsed@[i], vals[i]),
            decreases values@.len(),
        {
            let ghost k = parsed@.len() as int;
            let v = values.remove(0);
            proof {
                assert(v == vals[k]);
                assert(vals.skip(k).drop_first() =~= vals.skip(k + 1));
            }
            parsed.push(TentacleClient::parse_tentacle(v));
        }
        let ghost all = parsed@;
        proof {
            assert(vals.skip(parsed@.len() as int).len() == 0);
        }
        let r = TentacleClient::from_entries(parsed);
        proof {
            match &r {
                Ok(c) => {
                    assert forall|i: int| 0 <= i < vals.len() implies entry_valid(#[trigger] vals[i]) && entry_gives(
                        Ok::<TentacleInfo, TentacleConfigError>(c.endpoints()[i]),
                        vals[i],
                    ) by {
                        assert(all[i] == Ok::<TentacleInfo, TentacleConfigError>(c.endpoints()[i]));
                        lemma_entry_ok_iff_valid(all[i], vals[i]);
                    }
                },
                Err(e) => {
                    let i = choose|i: int|
                        0 <= i < all.len() && all[i] == Err::<TentacleInfo, TentacleConfigError>(*e)
                            && forall|j: int| 0 <= j < i ==> #[trigger] all[j] is Ok;
                    assert forall|j: int| 0 <= j < i implies entry_valid(#[trigger] vals[j]) by {
                        assert(all[j] is Ok);
                        lemma_entry_ok_iff_valid(all[j], vals[j]);
                    }
                    lemma_entry_ok_iff_valid(all[i], vals[i]);
                    assert(!entry_valid(vals[i]));
                    assert(entry_gives(Err::<TentacleInfo, TentacleConfigError>(*e), vals[i]));
                    assert(exists|i: int|
                        0 <= i < vals.len() && entry_gives(
                            Err::<TentacleInfo, TentacleConfigError>(*e),
                            vals[i],
                        ) && forall|j: int| 0 <= j < i ==> entry_valid(#[trigger] vals[j]));
                },
            }
            assert(entries_give(r, vals));
        }
        r
    }

    /// The content addresses of log `id` at each endpoint, in order: the
    /// requests that a query for `id` fans out to.
    pub fn content_urls(&self, id: &str, from_ms: u64, loglevels: &Option<String>) -> (r: Vec<String>)
        ensures
            r@.len() == self.endpoints().len(),
            forall|i: int|
                0 <= i < r@.len() ==> #[trigger] r@[i]@ == content_url_text(
                    self.endpoints()[i],
                    id@,
                    from_ms,
                    *loglevels,
                ),
            r@.len() > 0 ==> forall|k: int|
                0 <= k < url_quoted(id@).len() ==> url_safe_char(#[trigger] url_quoted(id@)[k]),
    {
        let mut urls: Vec<String> = Vec::new();
        let mut i: usize = 0;
        while i < self.tentacles.len()
            invariant
                i <= self.tentacles@.len(),
                urls@.len() == i,
                forall|j: int|
                    0 <= j < i ==> #[trigger] urls@[j]@ == content_url_text(
                        self.tentacles@[j],
                        id@,
                        from_ms,
                        *loglevels,
                    ),
                i > 0 ==> forall|k: int|
                    0 <= k < url_quoted(id@).len() ==> url_safe_char(#[trigger] url_quoted(id@)[k]),
            decreases self.tentacles@.len() - i,
        {
            urls.push(self.tentacles[i].content_url(id, from_ms, loglevels));
            i = i + 1;
        }
        urls
    }

    /// A client for the endpoints read from `entries`, in order; the first
    /// entry that cannot be read decides the error.
    pub fn from_entries(entries: Vec<Result<TentacleInfo, TentacleConfigError>>) -> (r: Result<
        TentacleClient,
        TentacleConfigError,
    >)
        ensures
            match r {
                Ok(c) => {
                    &&& forall|i: int| 0 <= i < entries@.len() ==> entries@[i] is Ok
                    &&& c.endpoints().len() == entries@.len()
                    &&& forall|i: int|
                        0 <= i < entries@.len() ==> entries@[i] == Ok::<
                            TentacleInfo,
                            TentacleConfigError,
                        >(#[trigger] c.endpoints()[i])
                },
                Err(e) => exists|i: int|
                    0 <= i < entries@.len() && entries@[i] == Err::<TentacleInfo, TentacleConfigError>(
                        e,
                    ) && forall|j: int| 0 <= j < i ==> #[trigger] entries@[j] is Ok,
            },
    {
        let ghost all = entries@;
        let mut tentacles: Vec<TentacleInfo> = Vec::new();
        let mut rest = entries;
        while rest.len() > 0
            invariant
                all == entries@,
                tentacles@.len() <= all.len(),
                rest@ == all.skip(tentacles@.len() as int),
                forall|j: int|
                    0 <= j < tentacles@.len() ==> all[j] == Ok::<TentacleInfo, TentacleConfigError>(
                        #[trigger] tentacles@[j],
                    ),
            decreases rest@.len(),
        {
            let ghost k = tentacles@.len() as int;
            let item = rest.remove(0);
            proof {
                assert(item == all[k]);
                assert(all.skip(k).drop_first() =~= all.skip(k + 1));
            }
            match item {
                Ok(t) => {
                    tentacles.push(t);
                },
                Err(e) => {
                    proof {
                        assert forall|j: int| 0 <= j < k implies #[trigger] all[j] is Ok by {
                            assert(all[j] == Ok::<TentacleInfo, TentacleConfigError>(tentacles@[j]));
                        }
                        assert(0 <= k < all.len() && all[k] == Err::<TentacleInfo, TentacleConfigError>(e));
                        assert(exists|i: int|
                            0 <= i < all.len() && all[i] == Err::<TentacleInfo, TentacleConfigError>(e)
                                && forall|j: int| 0 <= j < i ==> #[trigger] all[j] is Ok);
                    }
                    return Err(e);
                },
            }
        }
        proof {
            assert(all.skip(tentacles@.len() as int).len() == 0);
            assert forall|i: int| 0 <= i < all.len() implies #[trigger] all[i] is Ok by {
                assert(all[i] == Ok::<TentacleInfo, TentacleConfigError>(tentacles@[i]));
            }
        }
        Ok(TentacleClient { tentacles })
    }
}

impl Tentacle {
    /// The address of the content of log `log` at the tentacle on this machine.
    pub fn content_url(log: &str) -> (r: String)
        ensures
            r@ == local_content_url_text(log@),
            forall|k: int| 0 <= k < url_quoted(log@).len() ==> url_safe_char(#[trigger] url_quoted(log@)[k]),
    {
        proof {
            reveal_strlit("http://localhost:8080/api/v1/sources/");
            reveal_strlit("/content");
        }
        let mut url = String::from_str("http://localhost:8080/api/v1/sources/");
        let quoted = quote_path_segment(log);
        url.append(quoted.as_str());
        url.append("/content");
        url
    }
}

fn string_field(table: &HashMap<String, config::Value>, key: &str) -> (r: ConfigField<String>)
    ensures
        r == str_field(*table, key@),
{
    match table_entry(table, key) {
        None => ConfigField::Missing,
        Some(v) => match value_into_str(v) {
            Some(s) => ConfigField::Given(s),
            None => ConfigField::Invalid,
        },
    }
}

} // verus!
