//! Reading a configuration out of the value a Lua config script returned.
//!
//! The script runs in Lua; what it returns is handed to this module as a
//! [`LuaValue`], with each table's entries in the order Lua's `pairs` visits
//! them. Every rule about what a config may hold, which defaults apply and
//! which error is reported first lives here.
use vstd::prelude::*;

use crate::models::config_file::{ConfigFileEntry, ConfigFileEntryView};
use crate::models::diff_result::{config_files_view, strings_view};
use crate::models::ntix_config::NTIXConfig;
use crate::models::options::{
    buckets_view, default_bucket_names, ChocoOptions, NTIXOptions, ScoopBucket, ScoopBucketView,
    ScoopOptions, WingetOptions,
};
use crate::models::package_entry::{entries_view, PackageEntry, PackageEntryView};
use crate::str_map::{keys_unique, lemma_insert, lookup, pairs_insert, StrMap};
use crate::text::{decimal_of, i64_decimal, opt_view, str_equal, trim, trim_str};

verus! {

/// A Lua value that is neither nil, a boolean, an integer, a string nor a
/// table: a float, a function, a thread or userdata.
#[derive(Debug)]
pub struct OtherValue {
    /// Lua's name for its type (`number`, `function`, ...).
    pub kind: String,
    /// What converting it to text gives, or the message it fails with.
    pub shown: Result<String, String>,
    /// What Lua's string coercion makes of it; only numbers have one.
    pub coerced: Option<String>,
}

/// A value as a Lua script hands it over.
#[derive(Debug)]
pub enum LuaValue {
    Nil,
    Boolean(bool),
    Integer(i64),
    /// A string holding UTF-8 text.
    Str(String),
    /// A string that is not UTF-8, with the message decoding it gives.
    Bytes(String),
    /// A table: its entries in the order `pairs` visits them.
    Table(Vec<(LuaValue, LuaValue)>),
    Other(OtherValue),
}

/// Why a configuration could not be read.
#[derive(Debug)]
pub enum ConfigError {
    /// No file at the config path.
    FileNotFound(String),
    /// The script did not parse.
    LuaSyntax(String),
    /// The script failed while running.
    LuaRuntime(String),
    /// The script returned nothing.
    NoValue,
    /// A Lua string that must be text is not UTF-8 (read as `&str`).
    NotText(String),
    /// A value that had to become a `String` could not: the Lua type it had
    /// and why.
    NotAString { from: String, detail: String },
    /// Lua could not turn a value into text; its message.
    Unprintable(String),
    /// The script returned something other than a table.
    NotATable { kind: String, path: String },
    MissingOptions,
    MissingPkgs,
    /// `configFiles` is neither a table nor nil.
    ConfigFilesNotTable { kind: String, path: String },
    /// A `configFiles` destination that is not an absolute path.
    RelativeDestination(String),
    /// A `configFiles` entry whose source is not a string.
    SourceNotString(String),
    /// A `configFiles` source that is not an existing file: the destination
    /// and the resolved source.
    SourceNotFound { dest: String, src: String },
    /// `import` was called with something other than paths.
    ImportArgument,
    /// An imported file that does not exist.
    ImportNotFound(String),
}

pub enum ConfigErrorView {
    FileNotFound(Seq<char>),
    LuaSyntax(Seq<char>),
    LuaRuntime(Seq<char>),
    NoValue,
    NotText(Seq<char>),
    NotAString { from: Seq<char>, detail: Seq<char> },
    Unprintable(Seq<char>),
    NotATable { kind: Seq<char>, path: Seq<char> },
    MissingOptions,
    MissingPkgs,
    ConfigFilesNotTable { kind: Seq<char>, path: Seq<char> },
    RelativeDestination(Seq<char>),
    SourceNotString(Seq<char>),
    SourceNotFound { dest: Seq<char>, src: Seq<char> },
    ImportArgument,
    ImportNotFound(Seq<char>),
}

impl View for ConfigError {
    type V = ConfigErrorView;

    open spec fn view(&self) -> ConfigErrorView {
        match self {
            ConfigError::FileNotFound(p) => ConfigErrorView::FileNotFound(p@),
            ConfigError::LuaSyntax(m) => ConfigErrorView::LuaSyntax(m@),
            ConfigError::LuaRuntime(m) => ConfigErrorView::LuaRuntime(m@),
            ConfigError::NoValue => ConfigErrorView::NoValue,
            ConfigError::NotText(d) => ConfigErrorView::NotText(d@),
            ConfigError::NotAString { from, detail } => ConfigErrorView::NotAString {
                from: from@,
                detail: detail@,
            },
            ConfigError::Unprintable(m) => ConfigErrorView::Unprintable(m@),
            ConfigError::NotATable { kind, path } => ConfigErrorView::NotATable {
                kind: kind@,
                path: path@,
            },
            ConfigError::MissingOptions => ConfigErrorView::MissingOptions,
            ConfigError::MissingPkgs => ConfigErrorView::MissingPkgs,
            ConfigError::ConfigFilesNotTable { kind, path } =>
                ConfigErrorView::ConfigFilesNotTable { kind: kind@, path: path@ },
            ConfigError::RelativeDestination(d) => ConfigErrorView::RelativeDestination(d@),
            ConfigError::SourceNotString(d) => ConfigErrorView::SourceNotString(d@),
            ConfigError::SourceNotFound { dest, src } => ConfigErrorView::SourceNotFound {
                dest: dest@,
                src: src@,
            },
            ConfigError::ImportArgument => ConfigErrorView::ImportArgument,
            ConfigError::ImportNotFound(p) => ConfigErrorView::ImportNotFound(p@),
        }
    }
}

/// The text an error is reported with.
pub open spec fn error_text(e: ConfigErrorView) -> Seq<char> {
    match e {
        ConfigErrorView::FileNotFound(p) => "Config file not found: "@ + p,
        ConfigErrorView::LuaSyntax(m) => "Lua syntax error: "@ + m,
        ConfigErrorView::LuaRuntime(m) => "Lua runtime error: "@ + m,
        ConfigErrorView::NoValue => "Lua script returned no value"@,
        ConfigErrorView::NotText(d) => "error converting Lua string to &str ("@ + d + ")"@,
        ConfigErrorView::NotAString { from, detail } => "error converting Lua "@ + from
            + " to String ("@ + detail + ")"@,
        ConfigErrorView::Unprintable(m) => m,
        ConfigErrorView::NotATable { kind, path } => "Config script must return a table (got "@
            + kind + "): "@ + path,
        ConfigErrorView::MissingOptions => "Config error: missing top-level 'options' table"@,
        ConfigErrorView::MissingPkgs => "Config error: missing top-level 'pkgs' table"@,
        ConfigErrorView::ConfigFilesNotTable { kind, path } =>
            "Config error: 'configFiles' must be a table keyed by destination path (got "@
            + kind + "): "@ + path,
        ConfigErrorView::RelativeDestination(d) =>
            "runtime error: Config error: configFiles destination must be an absolute path: "@
            + d,
        ConfigErrorView::SourceNotString(d) => "runtime error: Config error: configFiles entry for '"@
            + d + "' must be a source path string"@,
        ConfigErrorView::SourceNotFound { dest, src } =>
            "runtime error: Config error: source file not found for configFiles entry '"@ + dest
            + "': "@ + src,
        ConfigErrorView::ImportArgument =>
            "import() expects a file path string or an array of file path strings"@,
        ConfigErrorView::ImportNotFound(p) => "Import file not found: "@ + p
            + " (referenced from config)"@,
    }
}

impl ConfigError {
    /// The message the error is reported with. The two `import` errors are
    /// raised inside Lua, which reports them as runtime errors.
    pub fn message(&self) -> (m: String)
        ensures
            m@ == error_text(self@),
    {
        match self {
            ConfigError::FileNotFound(p) => {
                let mut m = "Config file not found: ".to_owned();
                m.append(p.as_str());
                m
            },
            ConfigError::LuaSyntax(e) => {
                let mut m = "Lua syntax error: ".to_owned();
                m.append(e.as_str());
                m
            },
            ConfigError::LuaRuntime(e) => {
                let mut m = "Lua runtime error: ".to_owned();
                m.append(e.as_str());
                m
            },
            ConfigError::NoValue => "Lua script returned no value".to_owned(),
            ConfigError::NotText(d) => {
                let mut m = "error converting Lua string to &str (".to_owned();
                m.append(d.as_str());
                m.append(")");
                m
            },
            ConfigError::NotAString { from, detail } => {
                let mut m = "error converting Lua ".to_owned();
                m.append(from.as_str());
                m.append(" to String (");
                m.append(detail.as_str());
                m.append(")");
                m
            },
            ConfigError::Unprintable(e) => e.clone(),
            ConfigError::NotATable { kind, path } => {
                let mut m = "Config script must return a table (got ".to_owned();
                m.append(kind.as_str());
                m.append("): ");
                m.append(path.as_str());
                m
            },
            ConfigError::MissingOptions => "Config error: missing top-level 'options' table".to_owned(),
            ConfigError::MissingPkgs => "Config error: missing top-level 'pkgs' table".to_owned(),
            ConfigError::ConfigFilesNotTable { kind, path } => {
                let mut m =
                    "Config error: 'configFiles' must be a table keyed by destination path (got ".to_owned();
                m.append(kind.as_str());
                m.append("): ");
                m.append(path.as_str());
                m
            },
            ConfigError::RelativeDestination(d) => {
                let mut m =
                    "runtime error: Config error: configFiles destination must be an absolute path: ".to_owned();
                m.append(d.as_str());
                m
            },
            ConfigError::SourceNotString(d) => {
                let mut m = "runtime error: Config error: configFiles entry for '".to_owned();
                m.append(d.as_str());
                m.append("' must be a source path string");
                m
            },
            ConfigError::SourceNotFound { dest, src } => {
                let mut m = "runtime error: Config error: source file not found for configFiles entry '".to_owned();
                m.append(dest.as_str());
                m.append("': ");
                m.append(src.as_str());
                m
            },
            ConfigError::ImportArgument =>
                "import() expects a file path string or an array of file path strings".to_owned(),
            ConfigError::ImportNotFound(p) => {
                let mut m = "Import file not found: ".to_owned();
                m.append(p.as_str());
                m.append(" (referenced from config)");
                m
            },
        }
    }
}

/// Lua's name for the type of a value.
pub open spec fn lua_type_of(v: LuaValue) -> Seq<char> {
    match v {
        LuaValue::Nil => "nil"@,
        LuaValue::Boolean(_) => "boolean"@,
        LuaValue::Integer(_) => "integer"@,
        LuaValue::Str(_) => "string"@,
        LuaValue::Bytes(_) => "string"@,
        LuaValue::Table(_) => "table"@,
        LuaValue::Other(o) => o.kind@,
    }
}

/// Lua's name for the type of a value.
pub fn lua_type(v: &LuaValue) -> (s: String)
    ensures
        s@ == lua_type_of(*v),
{
    match v {
        LuaValue::Nil => "nil".to_owned(),
        LuaValue::Boolean(_) => "boolean".to_owned(),
        LuaValue::Integer(_) => "integer".to_owned(),
        LuaValue::Str(_) => "string".to_owned(),
        LuaValue::Bytes(_) => "string".to_owned(),
        LuaValue::Table(_) => "table".to_owned(),
        LuaValue::Other(o) => o.kind.clone(),
    }
}

/// Whether a key is the string `key`.
pub open spec fn is_key(k: LuaValue, key: Seq<char>) -> bool {
    k matches LuaValue::Str(s) && s@ == key
}

/// The value a table holds under the string `key`, nil when it holds none.
pub open spec fn field(t: Seq<(LuaValue, LuaValue)>, key: Seq<char>) -> LuaValue
    decreases t.len(),
{
    if t.len() == 0 {
        LuaValue::Nil
    } else if is_key(t[0].0, key) {
        t[0].1
    } else {
        field(t.drop_first(), key)
    }
}

/// The position of the entry under the string `key`, if there is one.
pub fn field_index(t: &Vec<(LuaValue, LuaValue)>, key: &str) -> (r: Option<usize>)
    ensures
        match r {
            Some(i) => i < t@.len() && field(t@, key@) == t@[i as int].1,
            None => field(t@, key@) == LuaValue::Nil,
        },
{
    let mut i: usize = 0;
    assert(t@.subrange(0, t@.len() as int) == t@);
    while i < t.len()
        invariant
            i <= t@.len(),
            field(t@, key@) == field(t@.subrange(i as int, t@.len() as int), key@),
        decreases t.len() - i,
    {
        let ghost rest = t@.subrange(i as int, t@.len() as int);
        assert(rest.drop_first() == t@.subrange(i + 1, t@.len() as int));
        assert(rest[0] == t@[i as int]);
        let hit = match &t[i].0 {
            LuaValue::Str(s) => str_equal(s.as_str(), key),
            _ => false,
        };
        if hit {
            return Some(i);
        }
        i = i + 1;
    }
    assert(t@.subrange(i as int, t@.len() as int).len() == 0);
    None
}

/// A boolean setting: the value when it is a boolean, else the fallback.
pub open spec fn bool_or(v: LuaValue, fallback: bool) -> bool {
    match v {
        LuaValue::Boolean(b) => b,
        _ => fallback,
    }
}

/// A boolean setting: the value when it is a boolean, else the fallback.
pub fn read_bool(value: &LuaValue, fallback: bool) -> (b: bool)
    ensures
        b == bool_or(*value, fallback),
{
    match value {
        LuaValue::Boolean(b) => *b,
        _ => fallback,
    }
}

/// The boolean a table holds under `key`, or the fallback.
pub open spec fn flag(t: Seq<(LuaValue, LuaValue)>, key: Seq<char>, fallback: bool) -> bool {
    bool_or(field(t, key), fallback)
}

fn read_flag(t: &Vec<(LuaValue, LuaValue)>, key: &str, fallback: bool) -> (b: bool)
    ensures
        b == flag(t@, key@, fallback),
{
    match field_index(t, key) {
        Some(i) => read_bool(&t[i].1, fallback),
        None => fallback,
    }
}

/// A string setting: the text of a string value, else the fallback; a
/// string that is not UTF-8 is an error.
pub open spec fn string_or(v: LuaValue, fallback: Option<Seq<char>>) -> Result<
    Option<Seq<char>>,
    ConfigErrorView,
> {
    match v {
        LuaValue::Str(s) => Ok(Some(s@)),
        LuaValue::Bytes(d) => Err(ConfigErrorView::NotText(d@)),
        _ => Ok(fallback),
    }
}

/// A string setting: the text of a string value, else the fallback; a
/// string that is not UTF-8 is an error.
pub fn read_string(value: &LuaValue, fallback: Option<String>) -> (r: Result<
    Option<String>,
    ConfigError,
>)
    ensures
        match r {
            Ok(o) => string_or(*value, opt_view(fallback)) == Ok::<Option<Seq<char>>, ConfigErrorView>(opt_view(o)),
            Err(e) => string_or(*value, opt_view(fallback)) == Err::<Option<Seq<char>>, ConfigErrorView>(e@),
        },
{
    match value {
        LuaValue::Str(s) => Ok(Some(s.clone())),
        LuaValue::Bytes(d) => Err(ConfigError::NotText(d.clone())),
        _ => Ok(fallback),
    }
}

/// What Lua's conversion of a value to a `String` gives: text for strings
/// and numbers, an error for anything else.
pub open spec fn coerce_text(v: LuaValue) -> Result<Seq<char>, ConfigErrorView> {
    match v {
        LuaValue::Str(s) => Ok(s@),
        LuaValue::Bytes(d) => Err(ConfigErrorView::NotAString { from: "string"@, detail: d@ }),
        LuaValue::Integer(i) => Ok(decimal_of(i as int)),
        LuaValue::Other(o) => match o.coerced {
            Some(c) => Ok(c@),
            None => Err(
                ConfigErrorView::NotAString { from: o.kind@, detail: "expected string or number"@ },
            ),
        },
        _ => Err(
            ConfigErrorView::NotAString { from: lua_type_of(v), detail: "expected string or number"@ },
        ),
    }
}

fn read_text(v: &LuaValue) -> (r: Result<String, ConfigError>)
    ensures
        match r {
            Ok(s) => coerce_text(*v) == Ok::<Seq<char>, ConfigErrorView>(s@),
            Err(e) => coerce_text(*v) == Err::<Seq<char>, ConfigErrorView>(e@),
        },
{
    match v {
        LuaValue::Str(s) => Ok(s.clone()),
        LuaValue::Bytes(d) => Err(ConfigError::NotAString { from: "string".to_owned(), detail: d.clone() }),
        LuaValue::Integer(i) => Ok(i64_decimal(*i)),
        LuaValue::Other(o) => match &o.coerced {
            Some(c) => Ok(c.clone()),
            None => Err(
                ConfigError::NotAString {
                    from: o.kind.clone(),
                    detail: "expected string or number".to_owned(),
                },
            ),
        },
        _ => Err(
            ConfigError::NotAString { from: lua_type(v), detail: "expected string or number".to_owned() },
        ),
    }
}

/// How a value that is not a string or a table prints.
pub open spec fn shown_text(v: LuaValue) -> Result<Seq<char>, ConfigErrorView> {
    match v {
        LuaValue::Boolean(b) => Ok(if b { "true"@ } else { "false"@ }),
        LuaValue::Integer(i) => Ok(decimal_of(i as int)),
        LuaValue::Other(o) => match o.shown {
            Ok(s) => Ok(s@),
            Err(m) => Err(ConfigErrorView::Unprintable(m@)),
        },
        LuaValue::Nil => Ok("nil"@),
        LuaValue::Str(s) => Ok(s@),
        LuaValue::Bytes(d) => Err(ConfigErrorView::NotText(d@)),
        LuaValue::Table(_) => Err(ConfigErrorView::Unprintable("table"@)),
    }
}

fn show(v: &LuaValue) -> (r: Result<String, ConfigError>)
    requires
        !(*v is Table),
    ensures
        match r {
            Ok(s) => shown_text(*v) == Ok::<Seq<char>, ConfigErrorView>(s@),
            Err(e) => shown_text(*v) == Err::<Seq<char>, ConfigErrorView>(e@),
        },
{
    match v {
        LuaValue::Boolean(b) => Ok(if *b { "true".to_owned() } else { "false".to_owned() }),
        LuaValue::Integer(i) => Ok(i64_decimal(*i)),
        LuaValue::Other(o) => match &o.shown {
            Ok(s) => Ok(s.clone()),
            Err(m) => Err(ConfigError::Unprintable(m.clone())),
        },
        LuaValue::Nil => Ok("nil".to_owned()),
        LuaValue::Str(s) => Ok(s.clone()),
        LuaValue::Bytes(d) => Err(ConfigError::NotText(d.clone())),
        LuaValue::Table(_) => Err(ConfigError::Unprintable("table".to_owned())),
    }
}


/// One entry of `scoop.buckets`: a name, a table with `name` and an
/// optional `url`, or any other value taken by how it prints; nil adds none.
pub open spec fn bucket_of(v: LuaValue) -> Option<Result<ScoopBucketView, ConfigErrorView>> {
    match v {
        LuaValue::Str(s) => Some(Ok(ScoopBucketView { name: s@, url: None })),
        LuaValue::Bytes(d) => Some(Err(ConfigErrorView::NotText(d@))),
        LuaValue::Table(bt) => match coerce_text(field(bt@, "name"@)) {
            Err(e) => Some(Err(e)),
            Ok(name) => match field(bt@, "url"@) {
                LuaValue::Str(u) => Some(Ok(ScoopBucketView { name, url: Some(u@) })),
                LuaValue::Bytes(d) => Some(Err(ConfigErrorView::NotText(d@))),
                _ => Some(Ok(ScoopBucketView { name, url: None })),
            },
        },
        LuaValue::Nil => None,
        _ => match shown_text(v) {
            Ok(s) => Some(Ok(ScoopBucketView { name: s, url: None })),
            Err(e) => Some(Err(e)),
        },
    }
}

/// The buckets of a `scoop.buckets` table, in order: entries under integer
/// keys only; the first bad entry is the error.
pub open spec fn buckets_from(t: Seq<(LuaValue, LuaValue)>) -> Result<Seq<ScoopBucketView>, ConfigErrorView>
    decreases t.len(),
{
    if t.len() == 0 {
        Ok(seq![])
    } else {
        match buckets_from(t.drop_last()) {
            Err(e) => Err(e),
            Ok(prev) => if !(t.last().0 is Integer) {
                Ok(prev)
            } else {
                match bucket_of(t.last().1) {
                    None => Ok(prev),
                    Some(Err(e)) => Err(e),
                    Some(Ok(b)) => Ok(prev.push(b)),
                }
            },
        }
    }
}

/// Once a prefix of the entries is malformed, so are all the entries.
proof fn lemma_buckets_err(t: Seq<(LuaValue, LuaValue)>, n: int)
    requires
        0 <= n <= t.len(),
        buckets_from(t.take(n)) is Err,
    ensures
        buckets_from(t) == buckets_from(t.take(n)),
    decreases t.len(),
{
    if n == t.len() {
        assert(t.take(n) == t);
    } else {
        assert(t.drop_last().take(n) == t.take(n));
        lemma_buckets_err(t.drop_last(), n);
    }
}

fn read_bucket(v: &LuaValue) -> (r: Option<Result<ScoopBucket, ConfigError>>)
    ensures
        match r {
            None => bucket_of(*v) is None,
            Some(Ok(b)) => bucket_of(*v) == Some(Ok::<ScoopBucketView, ConfigErrorView>(b@)),
            Some(Err(e)) => bucket_of(*v) == Some(Err::<ScoopBucketView, ConfigErrorView>(e@)),
        },
{
    match v {
        LuaValue::Str(s) => Some(Ok(ScoopBucket::new(s.as_str()))),
        LuaValue::Bytes(d) => Some(Err(ConfigError::NotText(d.clone()))),
        LuaValue::Table(bt) => {
            let name = match field_index(bt, "name") {
                Some(i) => read_text(&bt[i].1),
                None => read_text(&LuaValue::Nil),
            };
            let name = match name {
                Ok(n) => n,
                Err(e) => return Some(Err(e)),
            };
            match field_index(bt, "url") {
                Some(i) => match &bt[i].1 {
                    LuaValue::Str(u) => Some(Ok(ScoopBucket { name, url: Some(u.clone()) })),
                    LuaValue::Bytes(d) => Some(Err(ConfigError::NotText(d.clone()))),
                    _ => Some(Ok(ScoopBucket { name, url: None })),
                },
                None => Some(Ok(ScoopBucket { name, url: None })),
            }
        },
        LuaValue::Nil => None,
        _ => match show(v) {
            Ok(s) => Some(Ok(ScoopBucket { name: s, url: None })),
            Err(e) => Some(Err(e)),
        },
    }
}

/// The buckets listed in a `scoop.buckets` table.
pub fn read_buckets(t: &Vec<(LuaValue, LuaValue)>) -> (r: Result<Vec<ScoopBucket>, ConfigError>)
    ensures
        match r {
            Ok(b) => buckets_from(t@) == Ok::<Seq<ScoopBucketView>, ConfigErrorView>(buckets_view(b@)),
            Err(e) => buckets_from(t@) == Err::<Seq<ScoopBucketView>, ConfigErrorView>(e@),
        },
{
    let mut out: Vec<ScoopBucket> = Vec::new();
    let mut i: usize = 0;
    assert(t@.take(0) =~= Seq::<(LuaValue, LuaValue)>::empty());
    assert(buckets_view(out@) =~= Seq::<ScoopBucketView>::empty());
    while i < t.len()
        invariant
            i <= t@.len(),
            buckets_from(t@.take(i as int)) == Ok::<Seq<ScoopBucketView>, ConfigErrorView>(buckets_view(out@)),
        decreases t.len() - i,
    {
        assert(t@.take(i + 1).drop_last() == t@.take(i as int));
        assert(t@.take(i + 1).last() == t@[i as int]);
        if let LuaValue::Integer(_) = &t[i].0 {
            match read_bucket(&t[i].1) {
                None => {},
                Some(Err(e)) => {
                    proof {
                        lemma_buckets_err(t@, i + 1);
                    }
                    return Err(e);
                },
                Some(Ok(b)) => {
                    let ghost prev = out@;
                    out.push(b);
                    assert(buckets_view(out@) == buckets_view(prev).push(b@));
                },
            }
        }
        i = i + 1;
    }
    assert(t@.take(t@.len() as int) == t@);
    Ok(out)
}

/// The buckets scoop starts from: the default names, without URLs.
pub open spec fn default_buckets() -> Seq<ScoopBucketView> {
    default_bucket_names().map_values(|n: Seq<char>| ScoopBucketView { name: n, url: None })
}

/// The winget settings an `options` table gives; all off by default.
pub open spec fn winget_from(options: Seq<(LuaValue, LuaValue)>) -> WingetOptions {
    match field(options, "winget"@) {
        LuaValue::Table(w) => WingetOptions {
            enable: flag(w@, "enable"@, false),
            accept_agreement: flag(w@, "acceptAgreements"@, false),
            silent: flag(w@, "silent"@, false),
            disable_interactivity: flag(w@, "disableInteractivity"@, false),
        },
        _ => WingetOptions {
            enable: false,
            accept_agreement: false,
            silent: false,
            disable_interactivity: false,
        },
    }
}

/// Whether `c` holds the Chocolatey settings an `options` table gives; all
/// off and no params by default.
pub open spec fn choco_read(c: ChocoOptions, options: Seq<(LuaValue, LuaValue)>) -> bool {
    match field(options, "chocolatey"@) {
        LuaValue::Table(ct) => {
            &&& c.enable == flag(ct@, "enable"@, false)
            &&& c.yes == flag(ct@, "yes"@, false)
            &&& c.force == flag(ct@, "force"@, false)
            &&& c.ignore_dependencies == flag(ct@, "ignoreDependencies"@, false)
            &&& c.allow_downgrade == flag(ct@, "allowDowngrade"@, false)
            &&& c.skip_power_shell == flag(ct@, "skipPowerShell"@, false)
            &&& string_or(field(ct@, "params"@), None) == Ok::<Option<Seq<char>>, ConfigErrorView>(opt_view(c.params))
            &&& c.pre == flag(ct@, "pre"@, false)
        },
        _ => !c.enable && !c.yes && !c.force && !c.ignore_dependencies && !c.allow_downgrade
            && !c.skip_power_shell && c.params is None && !c.pre,
    }
}

/// The buckets a `scoop` table gives: its `buckets` table when it has one,
/// else the defaults.
pub open spec fn scoop_buckets(st: Seq<(LuaValue, LuaValue)>) -> Result<Seq<ScoopBucketView>, ConfigErrorView> {
    match field(st, "buckets"@) {
        LuaValue::Table(bt) => buckets_from(bt@),
        _ => Ok(default_buckets()),
    }
}

/// Whether `s` holds the scoop settings an `options` table gives.
pub open spec fn scoop_read(s: ScoopOptions, options: Seq<(LuaValue, LuaValue)>) -> bool {
    match field(options, "scoop"@) {
        LuaValue::Table(st) => {
            &&& s.enable == flag(st@, "enable"@, false)
            &&& scoop_buckets(st@) == Ok::<Seq<ScoopBucketView>, ConfigErrorView>(buckets_view(s.buckets@))
            &&& s.global == flag(st@, "global"@, false)
            &&& s.independent == flag(st@, "independent"@, false)
            &&& s.no_cache == flag(st@, "noCache"@, false)
            &&& s.skip_hash_check == flag(st@, "skipHashCheck"@, false)
            &&& string_or(field(st@, "arch"@), None) == Ok::<Option<Seq<char>>, ConfigErrorView>(opt_view(s.arch))
        },
        _ => !s.enable && !s.global && !s.independent && !s.no_cache && !s.skip_hash_check
            && s.arch is None && buckets_view(s.buckets@) == default_buckets(),
    }
}

/// The error reading an `options` table gives, if any: only the scoop
/// buckets can be malformed.
pub open spec fn options_error(options: Seq<(LuaValue, LuaValue)>) -> Option<ConfigErrorView> {
    match field(options, "scoop"@) {
        LuaValue::Table(st) => match scoop_buckets(st@) {
            Err(e) => Some(e),
            Ok(_) => None,
        },
        _ => None,
    }
}

/// Whether reading an `options` table stops on a string setting that is
/// not text (`chocolatey.params`, or `scoop.arch` once the buckets are read).
pub open spec fn options_unreadable(options: Seq<(LuaValue, LuaValue)>) -> bool {
    ||| field(options, "chocolatey"@) matches LuaValue::Table(ct) && field(ct@, "params"@) is Bytes
    ||| field(options, "scoop"@) matches LuaValue::Table(st) && scoop_buckets(st@) is Ok && field(
        st@,
        "arch"@,
    ) is Bytes
}

/// Whether the `options` table sets `key` of its `section` table to `true`.
pub open spec fn set_true(options: Seq<(LuaValue, LuaValue)>, section: Seq<char>, key: Seq<char>) -> bool {
    match field(options, section) {
        LuaValue::Table(t) => field(t@, key) == LuaValue::Boolean(true),
        _ => false,
    }
}

/// Each boolean setting read from `options` is on exactly when the config
/// sets it to `true` under its documented name: `winget.enable`,
/// `winget.acceptAgreements`, `winget.silent`, `winget.disableInteractivity`;
/// `chocolatey.enable`, `.yes`, `.force`, `.ignoreDependencies`,
/// `.allowDowngrade`, `.skipPowerShell`, `.pre`; `scoop.enable`, `.global`,
/// `.independent`, `.noCache`, `.skipHashCheck`. Anything else (missing, or
/// not a boolean) leaves it off.
pub proof fn lemma_option_flags(options: Seq<(LuaValue, LuaValue)>, c: ChocoOptions, s: ScoopOptions)
    ensures
        winget_from(options).enable == set_true(options, "winget"@, "enable"@),
        winget_from(options).accept_agreement == set_true(options, "winget"@, "acceptAgreements"@),
        winget_from(options).silent == set_true(options, "winget"@, "silent"@),
        winget_from(options).disable_interactivity == set_true(options, "winget"@, "disableInteractivity"@),
        choco_read(c, options) ==> {
            &&& c.enable == set_true(options, "chocolatey"@, "enable"@)
            &&& c.yes == set_true(options, "chocolatey"@, "yes"@)
            &&& c.force == set_true(options, "chocolatey"@, "force"@)
            &&& c.ignore_dependencies == set_true(options, "chocolatey"@, "ignoreDependencies"@)
            &&& c.allow_downgrade == set_true(options, "chocolatey"@, "allowDowngrade"@)
            &&& c.skip_power_shell == set_true(options, "chocolatey"@, "skipPowerShell"@)
            &&& c.pre == set_true(options, "chocolatey"@, "pre"@)
        },
        scoop_read(s, options) ==> {
            &&& s.enable == set_true(options, "scoop"@, "enable"@)
            &&& s.global == set_true(options, "scoop"@, "global"@)
            &&& s.independent == set_true(options, "scoop"@, "independent"@)
            &&& s.no_cache == set_true(options, "scoop"@, "noCache"@)
            &&& s.skip_hash_check == set_true(options, "scoop"@, "skipHashCheck"@)
        },
{
}

fn read_setting(t: &Vec<(LuaValue, LuaValue)>, key: &str) -> (r: Result<Option<String>, ConfigError>)
    ensures
        match r {
            Ok(o) => string_or(field(t@, key@), None) == Ok::<Option<Seq<char>>, ConfigErrorView>(opt_view(o)),
            Err(e) => string_or(field(t@, key@), None) == Err::<Option<Seq<char>>, ConfigErrorView>(e@),
        },
{
    match field_index(t, key) {
        Some(i) => read_string(&t[i].1, None),
        None => read_string(&LuaValue::Nil, None),
    }
}

fn default_scoop() -> (s: ScoopOptions)
    ensures
        !s.enable && !s.global && !s.independent && !s.no_cache && !s.skip_hash_check,
        s.arch is None,
        buckets_view(s.buckets@) == default_buckets(),
{
    let s = ScoopOptions::default();
    assert(buckets_view(s.buckets@) =~= default_buckets()) by {
        assert forall|i: int| 0 <= i < 3 implies #[trigger] buckets_view(s.buckets@)[i] == default_buckets()[i] by {
            assert(s.buckets@[i].name@ == default_bucket_names()[i]);
        }
    }
    s
}

/// The settings an `options` table gives; missing settings keep their
/// defaults.
pub fn read_options(options: &Vec<(LuaValue, LuaValue)>) -> (r: Result<NTIXOptions, ConfigError>)
    requires
        !options_unreadable(options@),
    ensures
        match r {
            Ok(o) => {
                &&& options_error(options@) is None
                &&& o.winget == winget_from(options@)
                &&& choco_read(o.chocolatey, options@)
                &&& scoop_read(o.scoop, options@)
            },
            Err(e) => options_error(options@) == Some(e@),
        },
{
    let mut winget = WingetOptions {
        enable: false,
        accept_agreement: false,
        silent: false,
        disable_interactivity: false,
    };
    if let Some(i) = field_index(options, "winget") {
        if let LuaValue::Table(t) = &options[i].1 {
            winget = WingetOptions {
                enable: read_flag(t, "enable", winget.enable),
                accept_agreement: read_flag(t, "acceptAgreements", winget.accept_agreement),
                silent: read_flag(t, "silent", winget.silent),
                disable_interactivity: read_flag(t, "disableInteractivity", winget.disable_interactivity),
            };
        }
    }
    let mut choco = ChocoOptions {
        enable: false,
        yes: false,
        force: false,
        ignore_dependencies: false,
        allow_downgrade: false,
        skip_power_shell: false,
        params: None,
        pre: false,
    };
    if let Some(i) = field_index(options, "chocolatey") {
        if let LuaValue::Table(t) = &options[i].1 {
            let params = match read_setting(t, "params") {
                Ok(p) => p,
                Err(e) => return Err(e),
            };
            choco = ChocoOptions {
                enable: read_flag(t, "enable", false),
                yes: read_flag(t, "yes", false),
                force: read_flag(t, "force", false),
                ignore_dependencies: read_flag(t, "ignoreDependencies", false),
                allow_downgrade: read_flag(t, "allowDowngrade", false),
                skip_power_shell: read_flag(t, "skipPowerShell", false),
                params,
                pre: read_flag(t, "pre", false),
            };
        }
    }
    let mut scoop = default_scoop();
    if let Some(i) = field_index(options, "scoop") {
        if let LuaValue::Table(t) = &options[i].1 {
            let buckets = match field_index(t, "buckets") {
                Some(j) => match &t[j].1 {
                    LuaValue::Table(bt) => match read_buckets(bt) {
                        Ok(b) => b,
                        Err(e) => return Err(e),
                    },
                    _ => scoop.buckets,
                },
                None => scoop.buckets,
            };
            let arch = match read_setting(t, "arch") {
                Ok(a) => a,
                Err(e) => return Err(e),
            };
            scoop = ScoopOptions {
                enable: read_flag(t, "enable", false),
                buckets,
                global: read_flag(t, "global", false),
                independent: read_flag(t, "independent", false),
                no_cache: read_flag(t, "noCache", false),
                skip_hash_check: read_flag(t, "skipHashCheck", false),
                arch,
            };
        }
    }
    Ok(NTIXOptions { winget, chocolatey: choco, scoop })
}


/// The `version` of a package table: its text when it is a string.
pub open spec fn version_of(e: Seq<(LuaValue, LuaValue)>) -> Result<Option<Seq<char>>, ConfigErrorView> {
    match field(e, "version"@) {
        LuaValue::Str(v) => Ok(Some(v@)),
        LuaValue::Bytes(d) => Err(ConfigErrorView::NotText(d@)),
        _ => Ok(None),
    }
}

/// One entry of a package list: an id, or a table with a string `id` and an
/// optional `version`; anything else adds none.
pub open spec fn entry_of(v: LuaValue) -> Option<Result<PackageEntryView, ConfigErrorView>> {
    match v {
        LuaValue::Str(s) => Some(Ok(PackageEntryView { id: s@, version: None })),
        LuaValue::Bytes(d) => Some(Err(ConfigErrorView::NotText(d@))),
        LuaValue::Table(e) => match field(e@, "id"@) {
            LuaValue::Str(id) => match version_of(e@) {
                Err(er) => Some(Err(er)),
                Ok(ver) => Some(Ok(PackageEntryView { id: id@, version: ver })),
            },
            LuaValue::Bytes(d) => match version_of(e@) {
                Err(er) => Some(Err(er)),
                Ok(_) => Some(Err(ConfigErrorView::NotText(d@))),
            },
            _ => None,
        },
        _ => None,
    }
}

/// The packages a list table declares, in order: entries under integer keys
/// only; the first bad entry is the error.
pub open spec fn packages_from(t: Seq<(LuaValue, LuaValue)>) -> Result<Seq<PackageEntryView>, ConfigErrorView>
    decreases t.len(),
{
    if t.len() == 0 {
        Ok(seq![])
    } else {
        match packages_from(t.drop_last()) {
            Err(e) => Err(e),
            Ok(prev) => if !(t.last().0 is Integer) {
                Ok(prev)
            } else {
                match entry_of(t.last().1) {
                    None => Ok(prev),
                    Some(Err(e)) => Err(e),
                    Some(Ok(p)) => Ok(prev.push(p)),
                }
            },
        }
    }
}

/// The packages `pkgs` declares for one manager; none when the key does not
/// hold a table.
pub open spec fn package_list(pkgs: Seq<(LuaValue, LuaValue)>, key: Seq<char>) -> Result<
    Seq<PackageEntryView>,
    ConfigErrorView,
> {
    match field(pkgs, key) {
        LuaValue::Table(t) => packages_from(t@),
        _ => Ok(seq![]),
    }
}

proof fn lemma_packages_err(t: Seq<(LuaValue, LuaValue)>, n: int)
    requires
        0 <= n <= t.len(),
        packages_from(t.take(n)) is Err,
    ensures
        packages_from(t) == packages_from(t.take(n)),
    decreases t.len(),
{
    if n == t.len() {
        assert(t.take(n) == t);
    } else {
        assert(t.drop_last().take(n) == t.take(n));
        lemma_packages_err(t.drop_last(), n);
    }
}

fn read_entry(v: &LuaValue) -> (r: Option<Result<PackageEntry, ConfigError>>)
    ensures
        match r {
            None => entry_of(*v) is None,
            Some(Ok(p)) => entry_of(*v) == Some(Ok::<PackageEntryView, ConfigErrorView>(p@)),
            Some(Err(e)) => entry_of(*v) == Some(Err::<PackageEntryView, ConfigErrorView>(e@)),
        },
{
    match v {
        LuaValue::Str(s) => Some(Ok(PackageEntry::new(s.as_str()))),
        LuaValue::Bytes(d) => Some(Err(ConfigError::NotText(d.clone()))),
        LuaValue::Table(e) => {
            let idi = match field_index(e, "id") {
                Some(i) => i,
                None => return None,
            };
            match &e[idi].1 {
                LuaValue::Str(_) => {},
                LuaValue::Bytes(_) => {},
                _ => return None,
            }
            let version = match read_setting(e, "version") {
                Ok(v) => v,
                Err(er) => return Some(Err(er)),
            };
            match &e[idi].1 {
                LuaValue::Str(id) => Some(Ok(PackageEntry { id: id.clone(), version })),
                LuaValue::Bytes(d) => Some(Err(ConfigError::NotText(d.clone()))),
                _ => None,
            }
        },
        _ => None,
    }
}

/// The packages a list table declares.
pub fn read_entries(t: &Vec<(LuaValue, LuaValue)>) -> (r: Result<Vec<PackageEntry>, ConfigError>)
    ensures
        match r {
            Ok(l) => packages_from(t@) == Ok::<Seq<PackageEntryView>, ConfigErrorView>(entries_view(l@)),
            Err(e) => packages_from(t@) == Err::<Seq<PackageEntryView>, ConfigErrorView>(e@),
        },
{
    let mut out: Vec<PackageEntry> = Vec::new();
    let mut i: usize = 0;
    assert(t@.take(0) =~= Seq::<(LuaValue, LuaValue)>::empty());
    assert(entries_view(out@) =~= Seq::<PackageEntryView>::empty());
    while i < t.len()
        invariant
            i <= t@.len(),
            packages_from(t@.take(i as int)) == Ok::<Seq<PackageEntryView>, ConfigErrorView>(entries_view(out@)),
        decreases t.len() - i,
    {
        assert(t@.take(i + 1).drop_last() == t@.take(i as int));
        assert(t@.take(i + 1).last() == t@[i as int]);
        if let LuaValue::Integer(_) = &t[i].0 {
            match read_entry(&t[i].1) {
                None => {},
                Some(Err(e)) => {
                    proof {
                        lemma_packages_err(t@, i + 1);
                    }
                    return Err(e);
                },
                Some(Ok(p)) => {
                    let ghost prev = out@;
                    out.push(p);
                    assert(entries_view(out@) == entries_view(prev).push(p@));
                },
            }
        }
        i = i + 1;
    }
    assert(t@.take(t@.len() as int) == t@);
    Ok(out)
}

/// The packages `pkgs` declares under `key` (`winget`, `chocolatey` or
/// `scoop`).
pub fn read_package_list(pkgs: &Vec<(LuaValue, LuaValue)>, key: &str) -> (r: Result<
    Vec<PackageEntry>,
    ConfigError,
>)
    ensures
        match r {
            Ok(l) => package_list(pkgs@, key@) == Ok::<Seq<PackageEntryView>, ConfigErrorView>(entries_view(l@)),
            Err(e) => package_list(pkgs@, key@) == Err::<Seq<PackageEntryView>, ConfigErrorView>(e@),
        },
{
    match field_index(pkgs, key) {
        Some(i) => match &pkgs[i].1 {
            LuaValue::Table(t) => read_entries(t),
            _ => {
                let l: Vec<PackageEntry> = Vec::new();
                assert(entries_view(l@) =~= Seq::<PackageEntryView>::empty());
                Ok(l)
            },
        },
        None => {
            let l: Vec<PackageEntry> = Vec::new();
            assert(entries_view(l@) =~= Seq::<PackageEntryView>::empty());
            Ok(l)
        },
    }
}

/// The id a package entry carries, for merging lists: a string entry is its
/// own id, a table has it under `id`.
pub open spec fn id_of(v: LuaValue) -> Result<Option<Seq<char>>, ConfigErrorView> {
    match v {
        LuaValue::Str(s) => Ok(Some(s@)),
        LuaValue::Bytes(d) => Err(ConfigErrorView::NotText(d@)),
        LuaValue::Table(t) => match field(t@, "id"@) {
            LuaValue::Str(s) => Ok(Some(s@)),
            LuaValue::Bytes(d) => Err(ConfigErrorView::NotText(d@)),
            _ => Ok(None),
        },
        _ => Ok(None),
    }
}

/// The id a package entry carries, for merging lists.
pub fn extract_id(entry: &LuaValue) -> (r: Result<Option<String>, ConfigError>)
    ensures
        match r {
            Ok(o) => id_of(*entry) == Ok::<Option<Seq<char>>, ConfigErrorView>(opt_view(o)),
            Err(e) => id_of(*entry) == Err::<Option<Seq<char>>, ConfigErrorView>(e@),
        },
{
    match entry {
        LuaValue::Str(s) => Ok(Some(s.clone())),
        LuaValue::Bytes(d) => Err(ConfigError::NotText(d.clone())),
        LuaValue::Table(t) => match field_index(t, "id") {
            Some(i) => match &t[i].1 {
                LuaValue::Str(s) => Ok(Some(s.clone())),
                LuaValue::Bytes(d) => Err(ConfigError::NotText(d.clone())),
                _ => Ok(None),
            },
            None => Ok(None),
        },
        _ => Ok(None),
    }
}


/// What the caller found out about the paths of one `configFiles` entry.
#[derive(Debug)]
pub struct ConfigFileCheck {
    /// Whether the destination (the key) is an absolute path.
    pub dest_absolute: bool,
    /// The source path: as written when absolute, else joined to the
    /// directory of the config file.
    pub src: String,
    /// Whether that source is an existing file.
    pub src_is_file: bool,
}

/// One `configFiles` entry, destination to source: entries not keyed by a
/// string are skipped.
pub open spec fn config_file_of(k: LuaValue, v: LuaValue, c: ConfigFileCheck) -> Option<
    Result<ConfigFileEntryView, ConfigErrorView>,
> {
    match k {
        LuaValue::Str(d) => if !c.dest_absolute {
            Some(Err(ConfigErrorView::RelativeDestination(d@)))
        } else {
            match v {
                LuaValue::Str(_) => if c.src_is_file {
                    Some(Ok(ConfigFileEntryView { dest: d@, src: c.src@ }))
                } else {
                    Some(Err(ConfigErrorView::SourceNotFound { dest: d@, src: c.src@ }))
                },
                LuaValue::Bytes(x) => Some(Err(ConfigErrorView::NotText(x@))),
                _ => Some(Err(ConfigErrorView::SourceNotString(d@))),
            }
        },
        LuaValue::Bytes(x) => Some(Err(ConfigErrorView::NotText(x@))),
        _ => None,
    }
}

/// The config files the first `n` entries of a `configFiles` table declare,
/// with the check of each entry at its position.
pub open spec fn config_files_upto(
    t: Seq<(LuaValue, LuaValue)>,
    checks: Seq<ConfigFileCheck>,
    n: nat,
) -> Result<Seq<ConfigFileEntryView>, ConfigErrorView>
    decreases n,
{
    if n == 0 {
        Ok(seq![])
    } else {
        match config_files_upto(t, checks, (n - 1) as nat) {
            Err(e) => Err(e),
            Ok(prev) => match config_file_of(t[n - 1].0, t[n - 1].1, checks[n - 1]) {
                None => Ok(prev),
                Some(Err(e)) => Err(e),
                Some(Ok(f)) => Ok(prev.push(f)),
            },
        }
    }
}

/// The config files a `configFiles` table declares.
pub open spec fn config_files_from(t: Seq<(LuaValue, LuaValue)>, checks: Seq<ConfigFileCheck>) -> Result<
    Seq<ConfigFileEntryView>,
    ConfigErrorView,
> {
    config_files_upto(t, checks, t.len())
}

proof fn lemma_config_files_err(t: Seq<(LuaValue, LuaValue)>, checks: Seq<ConfigFileCheck>, n: nat, m: nat)
    requires
        n <= m,
        config_files_upto(t, checks, n) is Err,
    ensures
        config_files_upto(t, checks, m) == config_files_upto(t, checks, n),
    decreases m,
{
    if n < m {
        lemma_config_files_err(t, checks, n, (m - 1) as nat);
    }
}

/// The config files a `configFiles` table declares; `checks` holds, for
/// each entry at the same position, what is known of its paths.
pub fn read_config_files(t: &Vec<(LuaValue, LuaValue)>, checks: &Vec<ConfigFileCheck>) -> (r: Result<
    Vec<ConfigFileEntry>,
    ConfigError,
>)
    requires
        checks@.len() == t@.len(),
    ensures
        match r {
            Ok(l) => config_files_from(t@, checks@) == Ok::<Seq<ConfigFileEntryView>, ConfigErrorView>(config_files_view(l@)),
            Err(e) => config_files_from(t@, checks@) == Err::<Seq<ConfigFileEntryView>, ConfigErrorView>(e@),
        },
{
    let mut out: Vec<ConfigFileEntry> = Vec::new();
    let mut i: usize = 0;
    assert(config_files_view(out@) =~= Seq::<ConfigFileEntryView>::empty());
    while i < t.len()
        invariant
            i <= t@.len(),
            checks@.len() == t@.len(),
            config_files_upto(t@, checks@, i as nat) == Ok::<Seq<ConfigFileEntryView>, ConfigErrorView>(config_files_view(out@)),
        decreases t.len() - i,
    {
        let c = &checks[i];
        let step: Option<Result<ConfigFileEntry, ConfigError>> = match &t[i].0 {
            LuaValue::Str(d) => if !c.dest_absolute {
                Some(Err(ConfigError::RelativeDestination(d.clone())))
            } else {
                match &t[i].1 {
                    LuaValue::Str(_) => if c.src_is_file {
                        Some(Ok(ConfigFileEntry { dest: d.clone(), src: c.src.clone() }))
                    } else {
                        Some(Err(ConfigError::SourceNotFound { dest: d.clone(), src: c.src.clone() }))
                    },
                    LuaValue::Bytes(x) => Some(Err(ConfigError::NotText(x.clone()))),
                    _ => Some(Err(ConfigError::SourceNotString(d.clone()))),
                }
            },
            LuaValue::Bytes(x) => Some(Err(ConfigError::NotText(x.clone()))),
            _ => None,
        };
        match step {
            None => {},
            Some(Err(e)) => {
                proof {
                    lemma_config_files_err(t@, checks@, (i + 1) as nat, t@.len());
                }
                return Err(e);
            },
            Some(Ok(f)) => {
                let ghost prev = out@;
                out.push(f);
                assert(config_files_view(out@) == config_files_view(prev).push(f@));
            },
        }
        i = i + 1;
    }
    Ok(out)
}

/// The first error among the three package lists of `pkgs`.
pub open spec fn packages_error(p: Seq<(LuaValue, LuaValue)>) -> Option<ConfigErrorView> {
    match package_list(p, "winget"@) {
        Err(e) => Some(e),
        Ok(_) => match package_list(p, "chocolatey"@) {
            Err(e) => Some(e),
            Ok(_) => match package_list(p, "scoop"@) {
                Err(e) => Some(e),
                Ok(_) => None,
            },
        },
    }
}

/// The error reading a config script's result gives, if any, for a config
/// at `path`: it must be a table with `options` and `pkgs` tables, and
/// `configFiles`, when present, a table.
pub open spec fn config_error(result: LuaValue, path: Seq<char>, checks: Seq<ConfigFileCheck>) -> Option<
    ConfigErrorView,
> {
    match result {
        LuaValue::Table(t) => match field(t@, "options"@) {
            LuaValue::Table(o) => match field(t@, "pkgs"@) {
                LuaValue::Table(p) => if options_error(o@) is Some {
                    options_error(o@)
                } else {
                    match field(t@, "configFiles"@) {
                        LuaValue::Table(ct) => match config_files_from(ct@, checks) {
                            Err(e) => Some(e),
                            Ok(_) => packages_error(p@),
                        },
                        LuaValue::Nil => packages_error(p@),
                        other => Some(
                            ConfigErrorView::ConfigFilesNotTable { kind: lua_type_of(other), path },
                        ),
                    }
                },
                _ => Some(ConfigErrorView::MissingPkgs),
            },
            _ => Some(ConfigErrorView::MissingOptions),
        },
        _ => Some(ConfigErrorView::NotATable { kind: lua_type_of(result), path }),
    }
}

/// Whether `c` is the configuration a script's result declares (read
/// without error).
pub open spec fn config_read(c: NTIXConfig, result: LuaValue, checks: Seq<ConfigFileCheck>) -> bool {
    result matches LuaValue::Table(t) && field(t@, "options"@) matches LuaValue::Table(o) && field(
        t@,
        "pkgs"@,
    ) matches LuaValue::Table(p) && {
        &&& c.options.winget == winget_from(o@)
        &&& choco_read(c.options.chocolatey, o@)
        &&& scoop_read(c.options.scoop, o@)
        &&& package_list(p@, "winget"@) == Ok::<Seq<PackageEntryView>, ConfigErrorView>(entries_view(c.winget_packages@))
        &&& package_list(p@, "chocolatey"@) == Ok::<Seq<PackageEntryView>, ConfigErrorView>(entries_view(c.choco_packages@))
        &&& package_list(p@, "scoop"@) == Ok::<Seq<PackageEntryView>, ConfigErrorView>(entries_view(c.scoop_packages@))
        &&& match field(t@, "configFiles"@) {
            LuaValue::Table(ct) => config_files_from(ct@, checks) == Ok::<Seq<ConfigFileEntryView>, ConfigErrorView>(config_files_view(c.config_files@)),
            _ => c.config_files@.len() == 0,
        }
        &&& c.imports@.len() == 0
    }
}

/// Whether reading the result stops on a string setting that is not text.
pub open spec fn config_unreadable(result: LuaValue) -> bool {
    result matches LuaValue::Table(t) && field(t@, "options"@) matches LuaValue::Table(o) && field(
        t@,
        "pkgs"@,
    ) is Table && options_unreadable(o@)
}

/// Whether `checks` has one check per `configFiles` entry.
pub open spec fn checks_fit(result: LuaValue, checks: Seq<ConfigFileCheck>) -> bool {
    result matches LuaValue::Table(t) && field(t@, "configFiles"@) matches LuaValue::Table(ct)
        ==> checks.len() == ct@.len()
}

/// Reads the configuration a config script returned. `config_path` is how
/// the config file is named in errors; `checks` describes the paths of the
/// `configFiles` entries, one per entry. Imports are filled in by the caller.
pub fn parse_config(result: &LuaValue, config_path: &str, checks: &Vec<ConfigFileCheck>) -> (r: Result<
    NTIXConfig,
    ConfigError,
>)
    requires
        !config_unreadable(*result),
        checks_fit(*result, checks@),
    ensures
        match r {
            Ok(c) => config_error(*result, config_path@, checks@) is None && config_read(c, *result, checks@),
            Err(e) => config_error(*result, config_path@, checks@) == Some(e@),
        },
{
    let t = match result {
        LuaValue::Table(t) => t,
        _ => return Err(ConfigError::NotATable { kind: lua_type(result), path: config_path.to_owned() }),
    };
    let o = match field_index(t, "options") {
        Some(i) => match &t[i].1 {
            LuaValue::Table(o) => o,
            _ => return Err(ConfigError::MissingOptions),
        },
        None => return Err(ConfigError::MissingOptions),
    };
    let p = match field_index(t, "pkgs") {
        Some(i) => match &t[i].1 {
            LuaValue::Table(p) => p,
            _ => return Err(ConfigError::MissingPkgs),
        },
        None => return Err(ConfigError::MissingPkgs),
    };
    let options = match read_options(o) {
        Ok(x) => x,
        Err(e) => return Err(e),
    };
    let config_files = match field_index(t, "configFiles") {
        Some(i) => match &t[i].1 {
            LuaValue::Table(ct) => match read_config_files(ct, checks) {
                Ok(l) => l,
                Err(e) => return Err(e),
            },
            LuaValue::Nil => Vec::new(),
            other => return Err(
                ConfigError::ConfigFilesNotTable { kind: lua_type(other), path: config_path.to_owned() },
            ),
        },
        None => Vec::new(),
    };
    assert(config_files_view(Seq::<ConfigFileEntry>::empty()) =~= Seq::<ConfigFileEntryView>::empty());
    let winget_packages = match read_package_list(p, "winget") {
        Ok(l) => l,
        Err(e) => return Err(e),
    };
    let choco_packages = match read_package_list(p, "chocolatey") {
        Ok(l) => l,
        Err(e) => return Err(e),
    };
    let scoop_packages = match read_package_list(p, "scoop") {
        Ok(l) => l,
        Err(e) => return Err(e),
    };
    Ok(NTIXConfig {
        options,
        winget_packages,
        choco_packages,
        scoop_packages,
        config_files,
        imports: Vec::new(),
    })
}


/// Scanning the package list merged into: each id with the index it sits
/// under (of two entries with one id, the later wins), and the index after
/// the largest one, at least 1.
pub open spec fn target_scan(t: Seq<(LuaValue, LuaValue)>) -> Result<(Seq<(Seq<char>, i64)>, int), ConfigErrorView>
    decreases t.len(),
{
    if t.len() == 0 {
        Ok((seq![], 1))
    } else {
        match target_scan(t.drop_last()) {
            Err(e) => Err(e),
            Ok((m, next)) => match t.last().0 {
                LuaValue::Integer(idx) => {
                    let next2 = if next >= idx + 1 { next } else { idx + 1 };
                    match id_of(t.last().1) {
                        Err(e) => Err(e),
                        Ok(Some(id)) => Ok((pairs_insert(m, id, idx), next2)),
                        Ok(None) => Ok((m, next2)),
                    }
                },
                _ => Ok((m, next)),
            },
        }
    }
}

/// Merging the first `n` entries of the list `s`, from the ids `m0` and the
/// free index `next0`: the ids, the next free index, the writes so far
/// (index, position in `s`) and the error that stopped the merge.
pub open spec fn source_upto(
    s: Seq<(LuaValue, LuaValue)>,
    m0: Seq<(Seq<char>, i64)>,
    next0: int,
    n: nat,
) -> (Seq<(Seq<char>, i64)>, int, Seq<(i64, usize)>, Option<ConfigErrorView>)
    decreases n,
{
    if n == 0 {
        (m0, next0, seq![], None)
    } else {
        let prev = source_upto(s, m0, next0, (n - 1) as nat);
        if prev.3 is Some || !(s[n - 1].0 is Integer) {
            prev
        } else {
            match id_of(s[n - 1].1) {
                Err(e) => (prev.0, prev.1, prev.2, Some(e)),
                Ok(None) => prev,
                Ok(Some(id)) => match lookup(prev.0, id) {
                    Some(at) => (prev.0, prev.1, prev.2.push((at, (n - 1) as usize)), None),
                    None => (
                        pairs_insert(prev.0, id, prev.1 as i64),
                        prev.1 + 1,
                        prev.2.push((prev.1 as i64, (n - 1) as usize)),
                        None,
                    ),
                },
            }
        }
    }
}

/// What merging the package list `s` into `t` writes into `t`, in order:
/// an entry whose id `t` already holds replaces it at its index, a new id
/// goes under the next free index; entries under non-integer keys or
/// without an id are left out. The error, if any, stopped the merge after
/// the writes before it.
pub open spec fn merge_plan(t: Seq<(LuaValue, LuaValue)>, s: Seq<(LuaValue, LuaValue)>) -> (
    Seq<(i64, usize)>,
    Option<ConfigErrorView>,
) {
    match target_scan(t) {
        Err(e) => (seq![], Some(e)),
        Ok((m, next)) => {
            let r = source_upto(s, m, next, s.len());
            (r.2, r.3)
        },
    }
}

/// Whether the indices of a merge fit in an `i64`: every integer key the
/// scan of the target reaches is below the largest `i64`, and so is every
/// index handed to a new id.
pub open spec fn merge_fits(t: Seq<(LuaValue, LuaValue)>, s: Seq<(LuaValue, LuaValue)>) -> bool {
    &&& forall|i: int|
        0 <= i < t.len() && #[trigger] t[i].0 is Integer && target_scan(t.take(i)) is Ok ==> t[i].0->Integer_0
            < i64::MAX
    &&& target_scan(t) is Ok ==> source_upto(s, target_scan(t)->Ok_0.0, target_scan(t)->Ok_0.1, s.len()).1
        <= i64::MAX
}

/// The writes merging one package list into another makes.
#[derive(Debug)]
pub struct MergePlan {
    /// Where each entry goes: the index in the target list and the position
    /// of the entry in the source list, in the order they are written.
    pub writes: Vec<(i64, usize)>,
    /// The error that stopped the merge, after the writes.
    pub error: Option<ConfigError>,
}

pub open spec fn opt_error_view(e: Option<ConfigError>) -> Option<ConfigErrorView> {
    match e {
        Some(x) => Some(x@),
        None => None,
    }
}

proof fn lemma_target_err(t: Seq<(LuaValue, LuaValue)>, n: int)
    requires
        0 <= n <= t.len(),
        target_scan(t.take(n)) is Err,
    ensures
        target_scan(t) == target_scan(t.take(n)),
    decreases t.len(),
{
    if n == t.len() {
        assert(t.take(n) == t);
    } else {
        assert(t.drop_last().take(n) == t.take(n));
        lemma_target_err(t.drop_last(), n);
    }
}

proof fn lemma_source_stops(s: Seq<(LuaValue, LuaValue)>, m0: Seq<(Seq<char>, i64)>, next0: int, n: nat, k: nat)
    requires
        n <= k,
        source_upto(s, m0, next0, n).3 is Some,
    ensures
        source_upto(s, m0, next0, k) == source_upto(s, m0, next0, n),
    decreases k,
{
    if n < k {
        lemma_source_stops(s, m0, next0, n, (k - 1) as nat);
    }
}

/// The next free index only grows during a merge.
proof fn lemma_source_next(s: Seq<(LuaValue, LuaValue)>, m0: Seq<(Seq<char>, i64)>, next0: int, n: nat, k: nat)
    requires
        n <= k,
    ensures
        next0 <= source_upto(s, m0, next0, n).1 <= source_upto(s, m0, next0, k).1,
    decreases k,
{
    if n < k {
        lemma_source_next(s, m0, next0, n, (k - 1) as nat);
    } else if n > 0 {
        lemma_source_next(s, m0, next0, (n - 1) as nat, (n - 1) as nat);
    }
}

/// Plans merging the package list `source` into `target`, deduplicating by
/// id: a later entry replaces an earlier one with the same id.
pub fn merge_packages_deduped(target: &Vec<(LuaValue, LuaValue)>, source: &Vec<(LuaValue, LuaValue)>) -> (plan: MergePlan)
    requires
        merge_fits(target@, source@),
    ensures
        (plan.writes@, opt_error_view(plan.error)) == merge_plan(target@, source@),
{
    let mut ids: StrMap<i64> = StrMap::new();
    let mut next: i64 = 1;
    let mut i: usize = 0;
    assert(target@.take(0) =~= Seq::<(LuaValue, LuaValue)>::empty());
    while i < target.len()
        invariant
            i <= target@.len(),
            merge_fits(target@, source@),
            target_scan(target@.take(i as int)) == Ok::<(Seq<(Seq<char>, i64)>, int), ConfigErrorView>((ids@, next as int)),
            1 <= next,
        decreases target.len() - i,
    {
        assert(target@.take(i + 1).drop_last() == target@.take(i as int));
        assert(target@.take(i + 1).last() == target@[i as int]);
        if let LuaValue::Integer(idx) = &target[i].0 {
            let idx: i64 = *idx;
            assert(target@[i as int].0 is Integer);
            let bumped: i64 = idx + 1;
            if next < bumped {
                next = bumped;
            }
            match extract_id(&target[i].1) {
                Err(e) => {
                    proof {
                        lemma_target_err(target@, i + 1);
                    }
                    return MergePlan { writes: Vec::new(), error: Some(e) };
                },
                Ok(Some(id)) => {
                    ids.insert(id, idx);
                },
                Ok(None) => {},
            }
        }
        i = i + 1;
    }
    assert(target@.take(target@.len() as int) == target@);
    let ghost m0 = ids@;
    let ghost next0 = next as int;
    let mut writes: Vec<(i64, usize)> = Vec::new();
    let mut j: usize = 0;
    while j < source.len()
        invariant
            j <= source@.len(),
            target_scan(target@) == Ok::<(Seq<(Seq<char>, i64)>, int), ConfigErrorView>((m0, next0)),
            source_upto(source@, m0, next0, source@.len()).1 <= i64::MAX,
            1 <= next0,
            source_upto(source@, m0, next0, j as nat) == (ids@, next as int, writes@, None::<ConfigErrorView>),
        decreases source.len() - j,
    {
        proof {
            lemma_source_next(source@, m0, next0, j as nat, source@.len());
            lemma_source_next(source@, m0, next0, (j + 1) as nat, source@.len());
        }
        if let LuaValue::Integer(_) = &source[j].0 {
            match extract_id(&source[j].1) {
                Err(e) => {
                    proof {
                        lemma_source_stops(source@, m0, next0, (j + 1) as nat, source@.len());
                    }
                    return MergePlan { writes, error: Some(e) };
                },
                Ok(None) => {},
                Ok(Some(id)) => {
                    let found: Option<i64> = match ids.get(id.as_str()) {
                        Some(at) => Some(*at),
                        None => None,
                    };
                    match found {
                        Some(at) => {
                            writes.push((at, j));
                        },
                        None => {
                            writes.push((next, j));
                            ids.insert(id, next);
                            next = next + 1;
                        },
                    }
                },
            }
        }
        j = j + 1;
    }
    MergePlan { writes, error: None }
}

/// Whether the indices of merging `source` into `target` fit in an `i64`
/// (see `merge_fits`); the merge may only be planned when they do.
pub fn merge_indices_fit(target: &Vec<(LuaValue, LuaValue)>, source: &Vec<(LuaValue, LuaValue)>) -> (b: bool)
    ensures
        b == merge_fits(target@, source@),
{
    let mut ids: StrMap<i64> = StrMap::new();
    let mut next: i64 = 1;
    let mut i: usize = 0;
    assert(target@.take(0) =~= Seq::<(LuaValue, LuaValue)>::empty());
    while i < target.len()
        invariant
            i <= target@.len(),
            target_scan(target@.take(i as int)) == Ok::<(Seq<(Seq<char>, i64)>, int), ConfigErrorView>((ids@, next as int)),
            1 <= next,
            forall|k: int|
                0 <= k < i && #[trigger] target@[k].0 is Integer && target_scan(target@.take(k)) is Ok
                    ==> target@[k].0->Integer_0 < i64::MAX,
        decreases target.len() - i,
    {
        assert(target@.take(i + 1).drop_last() == target@.take(i as int));
        assert(target@.take(i + 1).last() == target@[i as int]);
        if let LuaValue::Integer(idx) = &target[i].0 {
            let idx: i64 = *idx;
            if idx == i64::MAX {
                return false;
            }
            let bumped: i64 = idx + 1;
            if next < bumped {
                next = bumped;
            }
            match extract_id(&target[i].1) {
                Err(_) => {
                    proof {
                        lemma_target_err(target@, i + 1);
                        assert forall|k: int|
                            0 <= k < target@.len() && #[trigger] target@[k].0 is Integer && target_scan(
                                target@.take(k),
                            ) is Ok implies target@[k].0->Integer_0 < i64::MAX by {
                            if k > i {
                                assert(target@.take(k).take(i + 1) == target@.take(i + 1));
                                lemma_target_err(target@.take(k), i + 1);
                            }
                        }
                    }
                    return true;
                },
                Ok(Some(id)) => {
                    ids.insert(id, idx);
                },
                Ok(None) => {},
            }
        }
        i = i + 1;
    }
    assert(target@.take(target@.len() as int) == target@);
    let ghost m0 = ids@;
    let ghost next0 = next as int;
    let mut j: usize = 0;
    while j < source.len()
        invariant
            j <= source@.len(),
            target_scan(target@) == Ok::<(Seq<(Seq<char>, i64)>, int), ConfigErrorView>((m0, next0)),
            1 <= next0,
            forall|k: int|
                0 <= k < target@.len() && #[trigger] target@[k].0 is Integer && target_scan(target@.take(k)) is Ok
                    ==> target@[k].0->Integer_0 < i64::MAX,
            source_upto(source@, m0, next0, j as nat).0 == ids@,
            source_upto(source@, m0, next0, j as nat).1 == next as int,
            source_upto(source@, m0, next0, j as nat).3 is None,
        decreases source.len() - j,
    {
        if let LuaValue::Integer(_) = &source[j].0 {
            match extract_id(&source[j].1) {
                Err(_) => {
                    proof {
                        lemma_source_stops(source@, m0, next0, (j + 1) as nat, source@.len());
                    }
                    return true;
                },
                Ok(None) => {},
                Ok(Some(id)) => {
                    if !ids.contains_key(id.as_str()) {
                        if next == i64::MAX {
                            proof {
                                lemma_source_next(source@, m0, next0, (j + 1) as nat, source@.len());
                            }
                            return false;
                        }
                        ids.insert(id, next);
                        next = next + 1;
                    }
                },
            }
        }
        j = j + 1;
    }
    true
}

/// Whether the entry at position `p` of a package list is merged, under
/// the id `id`.
pub open spec fn merged_as(s: Seq<(LuaValue, LuaValue)>, p: int, id: Seq<char>) -> bool {
    s[p].0 is Integer && id_of(s[p].1) == Ok::<Option<Seq<char>>, ConfigErrorView>(Some(id))
}

proof fn lemma_target_unique(t: Seq<(LuaValue, LuaValue)>)
    requires
        target_scan(t) is Ok,
    ensures
        keys_unique(target_scan(t)->Ok_0.0),
    decreases t.len(),
{
    if t.len() > 0 {
        lemma_target_unique(t.drop_last());
        let m = target_scan(t.drop_last())->Ok_0.0;
        if let LuaValue::Integer(idx) = t.last().0 {
            if let Ok(Some(id)) = id_of(t.last().1) {
                lemma_insert(m, id, idx);
            }
        }
    }
}

proof fn lemma_source_unique(s: Seq<(LuaValue, LuaValue)>, m0: Seq<(Seq<char>, i64)>, next0: int, n: nat)
    requires
        keys_unique(m0),
    ensures
        keys_unique(source_upto(s, m0, next0, n).0),
    decreases n,
{
    if n > 0 {
        lemma_source_unique(s, m0, next0, (n - 1) as nat);
        let prev = source_upto(s, m0, next0, (n - 1) as nat);
        if let Ok(Some(id)) = id_of(s[n - 1].1) {
            lemma_insert(prev.0, id, prev.1 as i64);
        }
    }
}

/// Later steps of a merge only add writes.
proof fn lemma_source_prefix(s: Seq<(LuaValue, LuaValue)>, m0: Seq<(Seq<char>, i64)>, next0: int, n: nat, k: nat)
    requires
        n <= k,
        source_upto(s, m0, next0, k).3 is None,
    ensures
        source_upto(s, m0, next0, n).3 is None,
        source_upto(s, m0, next0, n).2.len() <= source_upto(s, m0, next0, k).2.len(),
        forall|a: int| 0 <= a < source_upto(s, m0, next0, n).2.len() ==> #[trigger] source_upto(s, m0, next0, k).2[a]
            == source_upto(s, m0, next0, n).2[a],
    decreases k,
{
    if n < k {
        lemma_source_prefix(s, m0, next0, n, (k - 1) as nat);
    }
}

/// Once an id has an index during a merge, it keeps it.
proof fn lemma_source_keeps(s: Seq<(LuaValue, LuaValue)>, m0: Seq<(Seq<char>, i64)>, next0: int, n: nat, k: nat, id: Seq<char>)
    requires
        keys_unique(m0),
        n <= k,
        source_upto(s, m0, next0, k).3 is None,
        lookup(source_upto(s, m0, next0, n).0, id) is Some,
    ensures
        lookup(source_upto(s, m0, next0, k).0, id) == lookup(source_upto(s, m0, next0, n).0, id),
    decreases k,
{
    if n < k {
        lemma_source_prefix(s, m0, next0, (k - 1) as nat, k);
        lemma_source_keeps(s, m0, next0, n, (k - 1) as nat, id);
        let prev = source_upto(s, m0, next0, (k - 1) as nat);
        lemma_source_unique(s, m0, next0, (k - 1) as nat);
        if let Ok(Some(x)) = id_of(s[k - 1].1) {
            lemma_insert(prev.0, x, prev.1 as i64);
        }
    }
}

/// The write made for a merged entry, and the index its id has after it.
proof fn lemma_source_step(s: Seq<(LuaValue, LuaValue)>, m0: Seq<(Seq<char>, i64)>, next0: int, p: int, id: Seq<char>)
    requires
        keys_unique(m0),
        0 <= p < s.len() <= usize::MAX,
        merged_as(s, p, id),
        source_upto(s, m0, next0, (p + 1) as nat).3 is None,
    ensures
        ({
            let before = source_upto(s, m0, next0, p as nat);
            let after = source_upto(s, m0, next0, (p + 1) as nat);
            &&& after.2.len() == before.2.len() + 1
            &&& after.2.last().1 == p
            &&& lookup(after.0, id) == Some(after.2.last().0)
        }),
{
    let before = source_upto(s, m0, next0, p as nat);
    lemma_source_unique(s, m0, next0, p as nat);
    lemma_insert(before.0, id, before.1 as i64);
}

/// Merging package lists deduplicates by id, and the later entry wins: two
/// merged entries with one id are written under the same index, the later
/// one after the earlier.
pub proof fn lemma_merge_later_wins(t: Seq<(LuaValue, LuaValue)>, s: Seq<(LuaValue, LuaValue)>, p: int, q: int, id: Seq<char>)
    requires
        merge_plan(t, s).1 is None,
        0 <= p < q < s.len() <= usize::MAX,
        merged_as(s, p, id),
        merged_as(s, q, id),
    ensures
        exists|a: int, b: int|
            0 <= a < b < merge_plan(t, s).0.len() && (#[trigger] merge_plan(t, s).0[a]).1 == p && (
            #[trigger] merge_plan(t, s).0[b]).1 == q && merge_plan(t, s).0[a].0 == merge_plan(t, s).0[b].0,
{
    lemma_target_unique(t);
    let m0 = target_scan(t)->Ok_0.0;
    let next0 = target_scan(t)->Ok_0.1;
    let n = s.len();
    let w = source_upto(s, m0, next0, n).2;
    lemma_source_prefix(s, m0, next0, (p + 1) as nat, n);
    lemma_source_prefix(s, m0, next0, (q + 1) as nat, n);
    lemma_source_step(s, m0, next0, p, id);
    lemma_source_step(s, m0, next0, q, id);
    let wp = source_upto(s, m0, next0, (p + 1) as nat).2;
    let wq = source_upto(s, m0, next0, (q + 1) as nat).2;
    lemma_source_prefix(s, m0, next0, (p + 1) as nat, q as nat);
    lemma_source_keeps(s, m0, next0, (p + 1) as nat, q as nat, id);
    let a = wp.len() - 1;
    let b = wq.len() - 1;
    assert(w[a] == wp[a]);
    assert(w[b] == wq[b]);
    assert(a < b);
    assert(merge_plan(t, s).0 == w);
    assert(merge_plan(t, s).0[a].1 == p && merge_plan(t, s).0[b].1 == q);
}

/// The paths an `import` call names: one string, or the non-blank strings
/// under the integer keys of a table.
pub open spec fn import_list(t: Seq<(LuaValue, LuaValue)>) -> Result<Seq<Seq<char>>, ConfigErrorView>
    decreases t.len(),
{
    if t.len() == 0 {
        Ok(seq![])
    } else {
        match import_list(t.drop_last()) {
            Err(e) => Err(e),
            Ok(prev) => if !(t.last().0 is Integer) {
                Ok(prev)
            } else {
                match t.last().1 {
                    LuaValue::Str(p) => if trim(p@).len() == 0 {
                        Ok(prev)
                    } else {
                        Ok(prev.push(p@))
                    },
                    LuaValue::Bytes(d) => Err(ConfigErrorView::NotText(d@)),
                    _ => Ok(prev),
                }
            },
        }
    }
}

/// The paths the argument of `import` names; anything but a string or a
/// table is refused.
pub open spec fn import_paths_of(arg: LuaValue) -> Result<Seq<Seq<char>>, ConfigErrorView> {
    match arg {
        LuaValue::Str(s) => Ok(seq![s@]),
        LuaValue::Bytes(d) => Err(ConfigErrorView::NotText(d@)),
        LuaValue::Table(t) => import_list(t@),
        _ => Err(ConfigErrorView::ImportArgument),
    }
}

proof fn lemma_import_err(t: Seq<(LuaValue, LuaValue)>, n: int)
    requires
        0 <= n <= t.len(),
        import_list(t.take(n)) is Err,
    ensures
        import_list(t) == import_list(t.take(n)),
    decreases t.len(),
{
    if n == t.len() {
        assert(t.take(n) == t);
    } else {
        assert(t.drop_last().take(n) == t.take(n));
        lemma_import_err(t.drop_last(), n);
    }
}

/// The paths the argument of an `import` call names, in order.
pub fn import_paths(arg: &LuaValue) -> (r: Result<Vec<String>, ConfigError>)
    ensures
        match r {
            Ok(v) => import_paths_of(*arg) == Ok::<Seq<Seq<char>>, ConfigErrorView>(strings_view(v@)),
            Err(e) => import_paths_of(*arg) == Err::<Seq<Seq<char>>, ConfigErrorView>(e@),
        },
{
    let mut out: Vec<String> = Vec::new();
    match arg {
        LuaValue::Str(s) => {
            out.push(s.clone());
            assert(strings_view(out@) =~= seq![s@]);
            Ok(out)
        },
        LuaValue::Bytes(d) => Err(ConfigError::NotText(d.clone())),
        LuaValue::Table(t) => {
            let mut i: usize = 0;
            assert(t@.take(0) =~= Seq::<(LuaValue, LuaValue)>::empty());
            assert(strings_view(out@) =~= Seq::<Seq<char>>::empty());
            while i < t.len()
                invariant
                    i <= t@.len(),
                    import_paths_of(*arg) == import_list(t@),
                    import_list(t@.take(i as int)) == Ok::<Seq<Seq<char>>, ConfigErrorView>(strings_view(out@)),
                decreases t.len() - i,
            {
                assert(t@.take(i + 1).drop_last() == t@.take(i as int));
                assert(t@.take(i + 1).last() == t@[i as int]);
                if let LuaValue::Integer(_) = &t[i].0 {
                    match &t[i].1 {
                        LuaValue::Str(p) => {
                            let trimmed = trim_str(p.as_str());
                            if trimmed.as_str().unicode_len() > 0 {
                                let ghost prev = out@;
                                out.push(p.clone());
                                assert(strings_view(out@) == strings_view(prev).push(p@));
                            }
                        },
                        LuaValue::Bytes(d) => {
                            proof {
                                lemma_import_err(t@, i + 1);
                            }
                            return Err(ConfigError::NotText(d.clone()));
                        },
                        _ => {},
                    }
                }
                i = i + 1;
            }
            assert(t@.take(t@.len() as int) == t@);
            Ok(out)
        },
        _ => Err(ConfigError::ImportArgument),
    }
}

} // verus!
