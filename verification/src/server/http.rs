//! What the HTTP transport lets in.
//!
//! There is no authorization, so the address the server binds and the origins and hosts it
//! answers to are its only defence.

use vstd::prelude::*;

use crate::text::{decimal, parse_unsigned};
use crate::text;

verus! {

broadcast use vstd::string::group_string_axioms;

/// Refuses to bind an address that is not a loopback unless that was asked for.
pub fn bind_guard(addr: &str, is_loopback: bool, allow_insecure: bool) -> (r: Result<(), String>)
    ensures
        match r {
            Ok(()) => is_loopback || allow_insecure,
            Err(m) => !is_loopback && !allow_insecure && m@ == "refusing to bind "@ + addr@
                + ": compact-mcp has no authorization. Pass --allow-insecure-bind if this is a trusted private network."@,
        },
{
    if is_loopback || allow_insecure {
        return Ok(());
    }
    let mut m = "refusing to bind ".to_owned();
    m.append(addr);
    m.append(
        ": compact-mcp has no authorization. Pass --allow-insecure-bind if this is a trusted private network.",
    );
    Err(m)
}

/// The origins that are answered: the loopback under the port the server is bound to. A client
/// that is no browser sends no origin and is answered too.
pub open spec fn origins(port: u16) -> Seq<Seq<char>> {
    seq![
        "http://127.0.0.1:"@ + text::dec(port as nat),
        "http://localhost:"@ + text::dec(port as nat),
    ]
}

/// The origins that are answered.
pub fn allowed_origins(port: u16) -> (r: Vec<String>)
    ensures
        text::views(r@) == origins(port),
{
    let number = decimal(port as u128);
    let mut a = "http://127.0.0.1:".to_owned();
    a.append(number.as_str());
    let mut b = "http://localhost:".to_owned();
    b.append(number.as_str());
    let mut out: Vec<String> = Vec::new();
    out.push(a);
    out.push(b);
    assert(text::views(out@) =~= origins(port));
    out
}

/// The hosts that are answered, `None` where every host is: a client of a deliberately public
/// server reaches it under any name, while a local server answers only to its own port.
pub open spec fn hosts(
    bind: Seq<char>,
    port: u16,
    is_loopback: bool,
    allow_insecure: bool,
) -> Option<Seq<Seq<char>>> {
    if allow_insecure && !is_loopback {
        None
    } else {
        Some(seq![bind, "localhost:"@ + text::dec(port as nat)])
    }
}

/// The hosts that are answered, `None` where every host is.
pub fn allowed_hosts(bind: &str, port: u16, is_loopback: bool, allow_insecure: bool) -> (r: Option<
    Vec<String>,
>)
    ensures
        match r {
            Some(v) => hosts(bind@, port, is_loopback, allow_insecure) == Some(text::views(v@)),
            None => hosts(bind@, port, is_loopback, allow_insecure) is None,
        },
{
    if allow_insecure && !is_loopback {
        return None;
    }
    let mut local = "localhost:".to_owned();
    local.append(decimal(port as u128).as_str());
    let mut out: Vec<String> = Vec::new();
    out.push(bind.to_owned());
    out.push(local);
    assert(text::views(out@) =~= seq![bind@, "localhost:"@ + text::dec(port as nat)]);
    Some(out)
}

/// Whether a request is refused before its body is read, by the length that its header
/// declares. A length that is no number says nothing; such a body is cut off while it is read.
pub fn declared_too_large(content_length: Option<&str>, limit: usize) -> (r: bool)
    ensures
        r <==> (content_length matches Some(s) && (text::parsed_unsigned(s@, u64::MAX as nat)
            matches Some(n) && n > limit)),
{
    match content_length {
        None => false,
        Some(s) => match parse_unsigned(s, u64::MAX) {
            None => false,
            Some(n) => n > limit as u64,
        },
    }
}

/// Only a loopback address is bound unless the operator asks for another, and every host is
/// answered only on an address that the operator asked for.
pub proof fn law_only_an_asked_for_server_is_public(
    bind: Seq<char>,
    port: u16,
    is_loopback: bool,
    allow_insecure: bool,
)
    requires
        is_loopback || allow_insecure,
    ensures
        hosts(bind, port, is_loopback, allow_insecure) is None <==> !is_loopback,
{
}

/// A body whose declared length is over the limit is refused, and one that fits is not.
pub proof fn law_declared_lengths_are_read(n: nat, limit: usize)
    requires
        n <= u64::MAX,
    ensures
        (text::parsed_unsigned(text::dec(n), u64::MAX as nat) matches Some(m) && m > limit) <==> n
            > limit,
{
    text::law_decimal_reads_back(n, u64::MAX as nat);
}

/// Exactly two origins are answered: the loopback by its number and by its name, each with the port
/// that the server is bound to and over plain HTTP.
pub proof fn law_only_the_loopback_is_an_origin(port: u16)
    ensures
        origins(port).len() == 2,
        origins(port)[0] == "http://127.0.0.1:"@ + text::dec(port as nat),
        origins(port)[1] == "http://localhost:"@ + text::dec(port as nat),
{
}

/// A server that is not open to every host answers to two: the address it is bound to and the
/// local name with its port.
pub proof fn law_a_local_server_has_two_names(
    bind: Seq<char>,
    port: u16,
    is_loopback: bool,
    allow_insecure: bool,
)
    ensures
        hosts(bind, port, is_loopback, allow_insecure) is None <==> allow_insecure && !is_loopback,
        hosts(bind, port, is_loopback, allow_insecure) matches Some(h) ==> h.len() == 2 && h[0]
            == bind && h[1] == "localhost:"@ + text::dec(port as nat),
{
}

} // verus!
