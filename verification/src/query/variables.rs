//! The system variables and informational functions that clients read.
use vstd::prelude::*;

use crate::seqs::Duplicate;
use crate::storage::value::{Value, ValueV};
use crate::text::{chars_of, lower, same_text, text_of, to_lower};

verus! {

/// MySQL's default `wait_timeout`, in seconds: eight hours. It is reported to
/// clients, not enforced.
pub const DEFAULT_WAIT_TIMEOUT: u64 = 28_800;

/// Server settings surfaced to `SELECT @@...`.
#[derive(Debug, Clone)]
pub struct SystemVariables {
    pub version: String,
    pub max_allowed_packet: u64,
    pub wait_timeout: u64,
}

/// The content of a [`SystemVariables`].
pub ghost struct SystemVariablesV {
    pub version: Seq<char>,
    pub max_allowed_packet: int,
    pub wait_timeout: int,
}

impl View for SystemVariables {
    type V = SystemVariablesV;

    open spec fn view(&self) -> SystemVariablesV {
        SystemVariablesV {
            version: self.version@,
            max_allowed_packet: self.max_allowed_packet as int,
            wait_timeout: self.wait_timeout as int,
        }
    }
}

/// A number as a column value, cut off at the top of the column's range.
pub open spec fn clamped(n: int) -> ValueV {
    ValueV::Int(
        if n > i64::MAX {
            i64::MAX
        } else {
            n as i64
        },
    )
}

/// The variables this server reports, in order, with their values.
pub open spec fn known(v: SystemVariablesV) -> Seq<(Seq<char>, ValueV)> {
    seq![
        ("version"@, ValueV::Varchar(v.version)),
        ("version_comment"@, ValueV::Varchar("mysql-rust"@)),
        ("max_allowed_packet"@, clamped(v.max_allowed_packet)),
        ("wait_timeout"@, clamped(v.wait_timeout)),
        ("interactive_timeout"@, clamped(v.wait_timeout)),
        ("net_write_timeout"@, ValueV::Int(60)),
        ("net_read_timeout"@, ValueV::Int(30)),
        ("autocommit"@, ValueV::Int(1)),
        ("auto_increment_increment"@, ValueV::Int(1)),
        ("character_set_client"@, ValueV::Varchar("utf8mb4"@)),
        ("character_set_connection"@, ValueV::Varchar("utf8mb4"@)),
        ("character_set_results"@, ValueV::Varchar("utf8mb4"@)),
        ("character_set_server"@, ValueV::Varchar("utf8mb4"@)),
        ("collation_server"@, ValueV::Varchar("utf8mb4_general_ci"@)),
        ("collation_connection"@, ValueV::Varchar("utf8mb4_general_ci"@)),
        ("init_connect"@, ValueV::Varchar(""@)),
        ("license"@, ValueV::Varchar("MIT OR Apache-2.0"@)),
        ("lower_case_table_names"@, ValueV::Int(0)),
        ("performance_schema"@, ValueV::Int(0)),
        ("query_cache_size"@, ValueV::Int(0)),
        ("query_cache_type"@, ValueV::Varchar("OFF"@)),
        ("have_query_cache"@, ValueV::Varchar("NO"@)),
        ("sql_mode"@, ValueV::Varchar(""@)),
        ("system_time_zone"@, ValueV::Varchar("UTC"@)),
        ("time_zone"@, ValueV::Varchar("SYSTEM"@)),
        ("transaction_isolation"@, ValueV::Varchar("READ-COMMITTED"@)),
        ("tx_isolation"@, ValueV::Varchar("READ-COMMITTED"@)),
        ("transaction_read_only"@, ValueV::Int(0)),
        ("socket"@, ValueV::Null),
    ]
}

/// Named values, seen mathematically.
pub open spec fn named_values(s: Seq<(String, Value)>) -> Seq<(Seq<char>, ValueV)> {
    Seq::new(s.len(), |i: int| (s[i].0@, s[i].1@))
}

/// What follows `prefix` in `s`, if `s` starts with it.
pub open spec fn stripped(s: Seq<char>, prefix: Seq<char>) -> Option<Seq<char>> {
    if prefix.is_prefix_of(s) {
        Some(s.subrange(prefix.len() as int, s.len() as int))
    } else {
        None
    }
}

/// A variable's name in lower case, without its scope.
pub open spec fn bare_name(name: Seq<char>) -> Seq<char> {
    let s = lower(name);
    match stripped(s, "session."@) {
        Some(rest) => rest,
        None => match stripped(s, "global."@) {
            Some(rest) => rest,
            None => match stripped(s, "local."@) {
                Some(rest) => rest,
                None => s,
            },
        },
    }
}

/// The value of the first of `list` called `name`, from `i` on; `NULL` if
/// there is none.
pub open spec fn value_from(list: Seq<(Seq<char>, ValueV)>, name: Seq<char>, i: int) -> ValueV
    decreases list.len() - i,
{
    if i < 0 || i >= list.len() {
        ValueV::Null
    } else if list[i].0 == name {
        list[i].1
    } else {
        value_from(list, name, i + 1)
    }
}

/// What `@@name` reads as.
pub open spec fn variable(v: SystemVariablesV, name: Seq<char>) -> ValueV {
    value_from(known(v), bare_name(name), 0)
}

/// What `name()` returns.
pub open spec fn function_value(v: SystemVariablesV, name: Seq<char>) -> ValueV {
    let s = lower(name);
    if s == "version"@ {
        ValueV::Varchar(v.version)
    } else if s == "connection_id"@ {
        ValueV::Int(1)
    } else if s == "last_insert_id"@ {
        ValueV::Int(0)
    } else {
        ValueV::Null
    }
}

fn clamp(n: u64) -> (r: Value)
    ensures
        r@ == clamped(n as int),
{
    if n > 9_223_372_036_854_775_807 {
        Value::Int(9_223_372_036_854_775_807)
    } else {
        Value::Int(n as i64)
    }
}

fn list_number(out: &mut Vec<(String, Value)>, name: &str, n: i64)
    ensures
        named_values(final(out)@) == named_values(old(out)@).push((name@, ValueV::Int(n))),
{
    out.push((name.to_string(), Value::Int(n)));
    proof {
        assert(named_values(out@) =~= named_values(old(out)@).push((name@, ValueV::Int(n))));
    }
}

fn list_text(out: &mut Vec<(String, Value)>, name: &str, text: &str)
    ensures
        named_values(final(out)@) == named_values(old(out)@).push((name@, ValueV::Varchar(text@))),
{
    out.push((name.to_string(), Value::Varchar(text.to_string())));
    proof {
        assert(named_values(out@) =~= named_values(old(out)@).push(
            (name@, ValueV::Varchar(text@)),
        ));
    }
}

fn list_value(out: &mut Vec<(String, Value)>, name: &str, value: Value)
    ensures
        named_values(final(out)@) == named_values(old(out)@).push((name@, value@)),
{
    out.push((name.to_string(), value));
    proof {
        assert(named_values(out@) =~= named_values(old(out)@).push((name@, value@)));
    }
}

/// What follows `prefix` in `s`, if `s` starts with it.
fn strip(s: &str, prefix: &str) -> (r: Option<String>)
    ensures
        match r {
            Some(rest) => stripped(s@, prefix@) == Some(rest@),
            None => stripped(s@, prefix@) is None,
        },
{
    let chars = chars_of(s);
    let start = chars_of(prefix);
    if start.len() > chars.len() {
        return None;
    }
    let head = text_of(chars.as_slice(), 0, start.len());
    proof {
        assert(prefix@.is_prefix_of(s@) <==> head@ =~= prefix@);
    }
    if same_text(head.as_str(), prefix) {
        Some(text_of(chars.as_slice(), start.len(), chars.len()))
    } else {
        None
    }
}

impl SystemVariables {
    /// Build from the configured version string and `max_allowed_packet`, with
    /// the default `wait_timeout`.
    pub fn new(version: &str, max_allowed_packet: u64) -> (r: Self)
        ensures
            r@ == (SystemVariablesV {
                version: version@,
                max_allowed_packet: max_allowed_packet as int,
                wait_timeout: DEFAULT_WAIT_TIMEOUT as int,
            }),
    {
        SystemVariables {
            version: version.to_string(),
            max_allowed_packet,
            wait_timeout: DEFAULT_WAIT_TIMEOUT,
        }
    }

    /// The variables this server reports: the set a standard client reads on
    /// connect. Backs both `@@variable` reads and `SHOW VARIABLES`.
    pub fn known_variables(&self) -> (r: Vec<(String, Value)>)
        ensures
            named_values(r@) == known(self@),
    {
        let mut out: Vec<(String, Value)> = Vec::new();
        proof {
            assert(named_values(out@) =~= Seq::<(Seq<char>, ValueV)>::empty());
        }
        list_text(&mut out, "version", self.version.as_str());
        list_text(&mut out, "version_comment", "mysql-rust");
        list_value(&mut out, "max_allowed_packet", clamp(self.max_allowed_packet));
        list_value(&mut out, "wait_timeout", clamp(self.wait_timeout));
        list_value(&mut out, "interactive_timeout", clamp(self.wait_timeout));
        list_number(&mut out, "net_write_timeout", 60);
        list_number(&mut out, "net_read_timeout", 30);
        list_number(&mut out, "autocommit", 1);
        list_number(&mut out, "auto_increment_increment", 1);
        list_text(&mut out, "character_set_client", "utf8mb4");
        list_text(&mut out, "character_set_connection", "utf8mb4");
        list_text(&mut out, "character_set_results", "utf8mb4");
        list_text(&mut out, "character_set_server", "utf8mb4");
        list_text(&mut out, "collation_server", "utf8mb4_general_ci");
        list_text(&mut out, "collation_connection", "utf8mb4_general_ci");
        list_text(&mut out, "init_connect", "");
        list_text(&mut out, "license", "MIT OR Apache-2.0");
        list_number(&mut out, "lower_case_table_names", 0);
        list_number(&mut out, "performance_schema", 0);
        list_number(&mut out, "query_cache_size", 0);
        list_text(&mut out, "query_cache_type", "OFF");
        list_text(&mut out, "have_query_cache", "NO");
        list_text(&mut out, "sql_mode", "");
        list_text(&mut out, "system_time_zone", "UTC");
        list_text(&mut out, "time_zone", "SYSTEM");
        list_text(&mut out, "transaction_isolation", "READ-COMMITTED");
        list_text(&mut out, "tx_isolation", "READ-COMMITTED");
        list_number(&mut out, "transaction_read_only", 0);
        // TCP-only server: there is no unix socket to report.
        list_value(&mut out, "socket", Value::Null);
        out
    }

    /// Resolve a `@@name` system variable. The scopes `session.`, `global.`
    /// and `local.` are accepted and ignored; an unknown variable is `NULL`
    /// rather than an error, so a client's connect-time reads never fail.
    pub fn system_variable(&self, name: &str) -> (r: Value)
        ensures
            r@ == variable(self@, name@),
    {
        let low = to_lower(name);
        let bare: String = match strip(low.as_str(), "session.") {
            Some(rest) => rest,
            None => match strip(low.as_str(), "global.") {
                Some(rest) => rest,
                None => match strip(low.as_str(), "local.") {
                    Some(rest) => rest,
                    None => low,
                },
            },
        };
        let list = self.known_variables();
        let ghost all = known(self@);
        let mut i: usize = 0;
        while i < list.len()
            invariant
                i <= list@.len(),
                named_values(list@) == all,
                all == known(self@),
                bare@ == bare_name(name@),
                value_from(all, bare@, 0) == value_from(all, bare@, i as int),
            decreases list@.len() - i,
        {
            proof {
                assert(all[i as int] == (list@[i as int].0@, list@[i as int].1@));
            }
            if same_text(list[i].0.as_str(), bare.as_str()) {
                return list[i].1.duplicate();
            }
            i = i + 1;
        }
        Value::Null
    }

    /// Evaluate an informational function without arguments, such as
    /// `VERSION()`. There is no current database, and an unknown function is
    /// `NULL`.
    pub fn evaluate_function(&self, name: &str) -> (r: Value)
        ensures
            r@ == function_value(self@, name@),
    {
        let low = to_lower(name);
        if same_text(low.as_str(), "version") {
            Value::Varchar(self.version.clone())
        } else if same_text(low.as_str(), "connection_id") {
            Value::Int(1)
        } else if same_text(low.as_str(), "last_insert_id") {
            Value::Int(0)
        } else {
            Value::Null
        }
    }
}

} // verus!
