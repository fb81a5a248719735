//! Command-line model and the init wizard's answer handling.

use vstd::prelude::*;
use vstd::string::StringExecFns;
use crate::config::TomlTarget;
use crate::routing::routes::decimal_text;
use crate::text::{
    is_digit, is_white_space, lemma_after_last_of, lemma_decimal_text_value, lemma_first_index_at_end,
    lemma_port_text_parses, lemma_trim_keeps,
};
use crate::text::{str_eq, 
    after_last, after_last_char, contains_char, is_valid_u16, parses_as_u16, split_char, split_spec, trim,
    trimmed,
};

verus! {

/// The command line: the configuration path and the subcommand, if any.
#[derive(Debug, Clone, PartialEq, Eq)]
pub struct Cli {
    pub config: String,
    pub command: Option<Commands>,
}

/// The subcommands.
#[derive(Debug, Clone, Copy, PartialEq, Eq)]
pub enum Commands {
    /// Start the proxy (the default).
    Run,
    /// Run the interactive configuration wizard.
    Init,
}

/// The verdict on an address answer.
#[derive(Debug, Clone, PartialEq, Eq)]
pub enum Validation {
    Valid,
    /// Not accepted, with the message shown to the user.
    Invalid(String),
}

/// What is wrong with one (trimmed) pool entry, if anything.
pub open spec fn entry_problem(a: Seq<char>) -> Option<Seq<char>> {
    if a.len() == 0 {
        Some("Pool entry cannot be empty"@)
    } else if !a.contains(':') {
        Some("'"@ + a + "' needs a port — use format host:port"@)
    } else if !parses_as_u16(after_last(a, ':')) {
        Some("'"@ + after_last(a, ':') + "' is not a valid port number (1–65535)"@)
    } else {
        None
    }
}

/// The problem with the first faulty entry among `pieces` (each trimmed).
pub open spec fn first_problem(pieces: Seq<Seq<char>>) -> Option<Seq<char>>
    decreases pieces.len(),
{
    if pieces.len() == 0 {
        None
    } else {
        match entry_problem(trimmed(pieces[0])) {
            Some(m) => Some(m),
            None => first_problem(pieces.drop_first()),
        }
    }
}

/// Checking an address answer: once trimmed it must not be empty, and every
/// comma-separated entry, trimmed, must be non-empty and end in ":port"
/// with a port that parses as a `u16`. The message of the first failure.
pub open spec fn address_problem(s: Seq<char>) -> Option<Seq<char>> {
    let t = trimmed(s);
    if t.len() == 0 {
        Some("Address is required — e.g. 127.0.0.1:25566"@)
    } else {
        first_problem(split_spec(t, ','))
    }
}

/// Every address of the form host ":" port, with a port from 0 to 65535
/// written in decimal (such as "127.0.0.1:19132"), passes the check, for any
/// host that does not start with white space and holds no ','.
pub proof fn lemma_host_port_accepted(h: Seq<char>, p: nat)
    requires
        p <= 65535,
        h.len() > 0,
        !is_white_space(h[0]),
        !h.contains(','),
    ensures
        address_problem(h + seq![':'] + decimal_text(p)) is None,
{
    let d = decimal_text(p);
    lemma_decimal_text_value(p);
    lemma_port_text_parses(p);
    let t = h + seq![':'] + d;
    let colon = h.len() as int;
    assert(t[colon] == ':');
    assert forall|i: int| colon < i < t.len() implies is_digit(#[trigger] t[i]) by {
        assert(t[i] == d[i - colon - 1]);
    }
    assert(t[0] == h[0]);
    assert(is_digit(t[t.len() - 1]));
    lemma_trim_keeps(t);
    // no ',' in t: one piece
    assert forall|j: int| 0 <= j < t.len() implies t[j] != ',' by {
        if j < colon {
            assert(t[j] == h[j]);
        } else if j > colon {
            assert(is_digit(t[j]));
        }
    }
    lemma_first_index_at_end(t, ',');
    assert(seq![t].drop_first() =~= Seq::<Seq<char>>::empty());
    // the port is what follows the last ':'
    assert(!d.contains(':')) by {
        assert forall|i: int| 0 <= i < d.len() implies d[i] != ':' by {
            assert(is_digit(d[i]));
        }
    }
    lemma_after_last_of(h, ':', d);
    assert(t.contains(':'));
    assert(entry_problem(t) is None);
    assert(entry_problem(trimmed(seq![t][0])) is None);
    assert(first_problem(seq![t].drop_first()) is None);
    assert(first_problem(seq![t]) is None);
    assert(trimmed(t).len() > 0);
    assert(address_problem(t) == first_problem(split_spec(trimmed(t), ',')));
}

fn quoted(text: &str, tail: &str) -> (r: String)
    ensures
        r@ == "'"@ + text@ + tail@,
{
    let mut r = "'".to_owned();
    r.append(text);
    r.append(tail);
    r
}

fn check_entry(raw: &str) -> (r: Option<String>)
    ensures
        match entry_problem(trimmed(raw@)) {
            None => r is None,
            Some(m) => r matches Some(x) && x@ == m,
        },
{
    let a = trim(raw);
    if a.is_empty() {
        return Some("Pool entry cannot be empty".to_owned());
    }
    if !contains_char(a, ':') {
        return Some(quoted(a, "' needs a port — use format host:port"));
    }
    let port = after_last_char(a, ':');
    if !is_valid_u16(port) {
        return Some(quoted(port, "' is not a valid port number (1–65535)"));
    }
    None
}

/// Checks an address answer of the init wizard; see `address_problem`.
pub fn validate_address(s: &str) -> (r: Validation)
    ensures
        match address_problem(s@) {
            None => r == Validation::Valid,
            Some(m) => r matches Validation::Invalid(x) && x@ == m,
        },
{
    let t = trim(s);
    if t.is_empty() {
        return Validation::Invalid("Address is required — e.g. 127.0.0.1:25566".to_owned());
    }
    let pieces = split_char(t, ',');
    let ghost views = pieces@.map_values(|p: &str| p@);
    let mut i: usize = 0;
    assert(views.skip(0) =~= views);
    while i < pieces.len()
        invariant
            i <= pieces@.len(),
            t@ == trimmed(s@),
            t@.len() > 0,
            views == pieces@.map_values(|p: &str| p@),
            views == split_spec(t@, ','),
            first_problem(views) == first_problem(views.skip(i as int)),
        decreases pieces@.len() - i,
    {
        let ghost rest = views.skip(i as int);
        assert(rest[0] == pieces@[i as int]@);
        assert(rest.drop_first() =~= views.skip(i + 1));
        if let Some(m) = check_entry(pieces[i]) {
            return Validation::Invalid(m);
        }
        i = i + 1;
    }
    assert(views.skip(i as int) =~= Seq::<Seq<char>>::empty());
    Validation::Valid
}

/// The `forward_to` an address answer stands for: with a comma, a pool of
/// its comma-separated entries, each trimmed; otherwise the trimmed address.
pub fn forward_target_from_answer(target: &str) -> (r: TomlTarget)
    ensures
        target@.contains(',') ==> (r matches TomlTarget::Pool(v)
            && v@.map_values(|x: String| x@) == split_spec(target@, ',').map_values(|p: Seq<char>| trimmed(p))),
        !target@.contains(',') ==> (r matches TomlTarget::Address(a) && a@ == trimmed(target@)),
{
    if contains_char(target, ',') {
        let pieces = split_char(target, ',');
        let ghost views = pieces@.map_values(|p: &str| p@);
        let mut pool: Vec<String> = Vec::new();
        let mut i: usize = 0;
        while i < pieces.len()
            invariant
                i <= pieces@.len(),
                views == pieces@.map_values(|p: &str| p@),
                pool@.len() == i,
                forall|j: int| 0 <= j < i ==> (#[trigger] pool@[j])@ == trimmed(views[j]),
            decreases pieces@.len() - i,
        {
            pool.push(trim(pieces[i]).to_owned());
            i = i + 1;
        }
        assert(pool@.map_values(|x: String| x@) =~= views.map_values(|p: Seq<char>| trimmed(p)));
        TomlTarget::Pool(pool)
    } else {
        TomlTarget::Address(trim(target).to_owned())
    }
}

/// An optional answer: `None` when it is blank, else the trimmed answer.
pub fn optional_answer(answer: &str) -> (r: Option<String>)
    ensures
        trimmed(answer@).len() == 0 ==> r is None,
        trimmed(answer@).len() > 0 ==> (r matches Some(s) && s@ == trimmed(answer@)),
{
    let t = trim(answer);
    if t.is_empty() {
        None
    } else {
        Some(t.to_owned())
    }
}


/// A protocol offered by the init wizard.
#[derive(Debug, Clone, Copy)]
pub struct InitProtocolMeta {
    pub display_name: &'static str,
    pub config_key: &'static str,
    pub default_port: &'static str,
}

/// The display names the init wizard offers, in order.
pub open spec fn init_display_names() -> Seq<Seq<char>> {
    seq!["Minecraft Java"@, "Minecraft Bedrock"@, "Web/HTTP"@]
}

/// The `i`th protocol the wizard offers, field by field.
pub open spec fn is_init_protocol(m: InitProtocolMeta, i: int) -> bool {
    &&& m.display_name@ == init_display_names()[i]
    &&& m.config_key@ == seq!["minecraft_java"@, "minecraft_bedrock"@, "web"@][i]
    &&& m.default_port@ == seq!["127.0.0.1:25566"@, "127.0.0.1:19132"@, "127.0.0.1:8080"@][i]
}

/// The protocols the init wizard offers: Minecraft Java, Minecraft Bedrock
/// and Web/HTTP.
pub fn init_protocols() -> (r: Vec<InitProtocolMeta>)
    ensures
        r@.len() == 3,
        forall|i: int| 0 <= i < 3 ==> is_init_protocol(#[trigger] r@[i], i),
{
    let r = vec![
        InitProtocolMeta {
            display_name: "Minecraft Java",
            config_key: "minecraft_java",
            default_port: "127.0.0.1:25566",
        },
        InitProtocolMeta {
            display_name: "Minecraft Bedrock",
            config_key: "minecraft_bedrock",
            default_port: "127.0.0.1:19132",
        },
        InitProtocolMeta { display_name: "Web/HTTP", config_key: "web", default_port: "127.0.0.1:8080" },
    ];
    assert(is_init_protocol(r@[0], 0));
    assert(is_init_protocol(r@[1], 1));
    assert(is_init_protocol(r@[2], 2));
    r
}

/// The position of the first offered protocol with this display name, or 3.
pub open spec fn init_index(name: Seq<char>) -> int {
    if name == init_display_names()[0] {
        0
    } else if name == init_display_names()[1] {
        1
    } else if name == init_display_names()[2] {
        2
    } else {
        3
    }
}

/// The offered protocol with this display name, if any.
pub fn init_protocol_named(name: &str) -> (r: Option<InitProtocolMeta>)
    ensures
        init_index(name@) < 3 ==> (r matches Some(m) && is_init_protocol(m, init_index(name@))),
        init_index(name@) == 3 ==> r is None,
{
    let metas = init_protocols();
    let mut i: usize = 0;
    while i < metas.len()
        invariant
            metas@.len() == 3,
            forall|k: int| 0 <= k < 3 ==> is_init_protocol(#[trigger] metas@[k], k),
            i <= 3,
            forall|j: int| 0 <= j < i ==> init_display_names()[j] != name@,
        decreases 3 - i,
    {
        if str_eq(metas[i].display_name, name) {
            let m = metas[i];
            assert(is_init_protocol(m, i as int));
            return Some(m);
        }
        i = i + 1;
    }
    None
}

} // verus!

