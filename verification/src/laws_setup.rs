//! How the proxy is set up from each kind of setting, and which addresses it
//! uses.
use vstd::prelude::*;

use crate::address::IpAddr;
use crate::config::{
    entries, host_list, is_switched_on, li_argument, local_address, local_base, or_else, set_up,
    usual_referer, usual_ua, Environment,
};
use crate::laws_request::{in_small_letters, is_closed, law_global_v4, number_of};
use crate::laws_text::{lacks, law_has_text, law_split, law_split_by};
use crate::resolver::{usable, Ipv4Resolver, SocketAddr};
use crate::system_proxy::{
    address_for, law_proxies_come_together, planned, proxies, second_piece, server_value, variables,
};
use crate::text::{
    ascii_lower, decimal, lemma_position_is, lower_char, opt_text, split, split_by, trim,
};

verus! {

/// The address behind the first `-Li` is that of the machine.
pub proof fn law_li_switch(
    before: Seq<Seq<char>>,
    ip: Seq<char>,
    after: Seq<Seq<char>>,
    env: Option<Seq<char>>,
)
    requires
        !before.contains("-Li"@),
    ensures
        local_address(before + seq!["-Li"@, ip] + after, env) == ip,
    decreases before.len(),
{
    let args = before + seq!["-Li"@, ip] + after;
    if before.len() > 0 {
        let rest = before.drop_first();
        assert(before.contains(before[0]));
        assert(args[0] == before[0]);
        assert forall|i: int| 0 <= i < rest.len() implies rest[i] != "-Li"@ by {
            assert(before.contains(before[i + 1]));
        }
        law_li_switch(rest, ip, after, env);
        assert(args.drop_first() =~= rest + seq!["-Li"@, ip] + after);
    } else {
        assert(args[0] == "-Li"@ && args[1] == ip);
    }
}

/// Without the switch, and where nothing follows it, the address is that of
/// the environment, else the usual one.
pub proof fn law_no_li_switch(args: Seq<Seq<char>>, env: Option<Seq<char>>)
    requires
        !args.contains("-Li"@),
    ensures
        env is Some ==> local_address(args, env) == env->0 && local_address(args.push("-Li"@), env)
            == env->0,
        env is None ==> local_address(args, env) == "192.168.1.1"@ && local_address(
            args.push("-Li"@),
            env,
        ) == "192.168.1.1"@,
{
    lemma_no_li(args);
}

/// There is no argument behind a switch that is missing or the last one.
proof fn lemma_no_li(args: Seq<Seq<char>>)
    requires
        !args.contains("-Li"@),
    ensures
        li_argument(args) is None,
        li_argument(args.push("-Li"@)) is None,
    decreases args.len(),
{
    let more = args.push("-Li"@);
    if args.len() > 0 {
        let rest = args.drop_first();
        assert(args.contains(args[0]));
        assert(more[0] == args[0]);
        assert forall|i: int| 0 <= i < rest.len() implies rest[i] != "-Li"@ by {
            assert(args.contains(args[i + 1]));
        }
        lemma_no_li(rest);
        assert(more.drop_first() =~= rest.push("-Li"@));
    } else {
        assert(more[0] == "-Li"@);
    }
}

/// Private addresses are allowed by `1`, by `true` in letters of any size, and
/// by nothing else.
pub proof fn law_switch(value: Seq<char>)
    ensures
        !is_switched_on(None),
        is_switched_on(Some(value)) <==> {
            ||| value.len() == 1 && value[0] == '1'
            ||| {
                &&& value.len() == 4
                &&& value[0] == 't' || value[0] == 'T'
                &&& value[1] == 'r' || value[1] == 'R'
                &&& value[2] == 'u' || value[2] == 'U'
                &&& value[3] == 'e' || value[3] == 'E'
            }
        },
{
    reveal_strlit("1");
    reveal_strlit("true");
    let lower = ascii_lower(value);
    assert(lower.len() == value.len());
    assert("1"@ =~= seq!['1']);
    assert("true"@ =~= seq!['t', 'r', 'u', 'e']);
    if value.len() == 1 && value[0] == '1' {
        assert(value =~= "1"@);
    }
    if value.len() == 4 {
        assert(lower[0] == lower_char(value[0]) && lower[1] == lower_char(value[1]) && lower[2]
            == lower_char(value[2]) && lower[3] == lower_char(value[3]));
        if lower[0] == 't' && lower[1] == 'r' && lower[2] == 'u' && lower[3] == 'e' {
            assert(lower =~= "true"@);
        }
    }
}

/// What a part of a list of hosts gives: its trimmed text in small letters, if
/// any is left.
pub open spec fn entry_of(part: Seq<char>) -> Seq<Seq<char>> {
    let entry = in_small_letters(trim(part));
    if entry.len() == 0 {
        seq![]
    } else {
        seq![entry]
    }
}

/// A list of hosts is the one that always may be asked for, and what each of
/// its parts between commas gives; without a list there is none.
pub proof fn law_host_list(part: Seq<char>, rest: Seq<char>)
    requires
        !part.contains(','),
    ensures
        host_list(None) is None,
        host_list(Some(part)) == Some(seq!["surrit.com"@] + entry_of(part)),
        host_list(Some(part + seq![','] + rest)) is Some,
        host_list(Some(rest)) is Some,
        host_list(Some(rest))->0.len() > 0,
        host_list(Some(part + seq![','] + rest))->0 == seq!["surrit.com"@] + entry_of(part)
            + host_list(Some(rest))->0.drop_first(),
{
    law_split(part, rest, ',');
    let others = split(rest, ',');
    lemma_entries(seq![part], others);
    reveal_with_fuel(entries, 2);
    assert(seq![part].drop_last() =~= Seq::<Seq<char>>::empty());
    assert(entries(seq![part]) =~= entry_of(part));
    let tail = entries(others);
    assert((seq!["surrit.com"@] + tail).drop_first() =~= tail);
    assert(seq!["surrit.com"@] + (entry_of(part) + tail) =~= seq!["surrit.com"@] + entry_of(part)
        + tail);
}

/// The entries of some parts and more parts are those of the ones and the
/// others.
proof fn lemma_entries(a: Seq<Seq<char>>, b: Seq<Seq<char>>)
    ensures
        entries(a + b) == entries(a) + entries(b),
    decreases b.len(),
{
    if b.len() == 0 {
        assert(a + b =~= a);
        assert(entries(a) + Seq::<Seq<char>>::empty() =~= entries(a));
    } else {
        lemma_entries(a, b.drop_last());
        assert((a + b).drop_last() =~= a + b.drop_last());
        assert((a + b).last() == b.last());
        assert(entries(a + b) =~= entries(a) + entries(b));
    }
}

/// What is set is taken, else what is usual.
pub proof fn law_usual_settings(value: Seq<char>, usual: Seq<char>, ip: Seq<char>, port: u16)
    ensures
        or_else(Some(value), usual) == value,
        or_else(None, usual) == usual,
        local_base(ip, port) == "http://"@ + ip + ":"@ + decimal(port as nat) + "/?url="@,
        usual_referer() == "https://missav.ws/dm242/cn"@,
        usual_ua()
            == "Mozilla/5.0 (Windows NT 10.0; Win64; x64) AppleWebKit/537.36 (KHTML, like Gecko) Chrome/120.0.0.0 Safari/537.36"@,
{
}

/// The piece behind the first `pat` goes up to the second one, or to the end;
/// without a first one there is none.
pub proof fn law_second_piece(a: Seq<char>, b: Seq<char>, c: Seq<char>, pat: Seq<char>)
    requires
        pat.len() > 0,
        lacks(a + pat.drop_last(), pat),
        lacks(b + pat.drop_last(), pat),
    ensures
        second_piece(a, pat) is None,
        second_piece(a + pat + b, pat) == Some(b),
        second_piece(a + pat + (b + pat + c), pat) == Some(b),
{
    law_split_by(a, b, pat);
    law_split_by(b, c, pat);
    law_split_by(a, b + pat + c, pat);
    assert(split_by(a + pat + b, pat)[1] == b);
    assert(split_by(a + pat + (b + pat + c), pat)[1] == b);
}

/// The value of `ProxyServer` in an answer of the registry is what follows its
/// type, without white space around it; there may be none.
pub proof fn law_registry_value(output: Seq<char>)
    ensures
        ({
            let rest = second_piece(output, "ProxyServer"@);
            let value = second_piece(rest->0, "REG_SZ"@);
            &&& rest is Some && value is Some ==> server_value(output) == trim(value->0)
            &&& rest is None || value is None ==> server_value(output) == Seq::<char>::empty()
        }),
{
}

/// In a setting with a part for each scheme, the address for a scheme is that
/// of the last part whose name is the scheme, in letters of any size, without
/// white space around name and address; a part without `=` gives none.
pub proof fn law_scheme_parts(
    parts: Seq<Seq<char>>,
    name: Seq<char>,
    address: Seq<char>,
    other: Seq<char>,
    scheme: Seq<char>,
)
    requires
        !name.contains('='),
        !other.contains('='),
    ensures
        address_for(Seq::<Seq<char>>::empty(), scheme) == Seq::<char>::empty(),
        ascii_lower(trim(name)) == scheme ==> address_for(
            parts.push(name + seq!['='] + address),
            scheme,
        ) == trim(address),
        ascii_lower(trim(name)) != scheme ==> address_for(
            parts.push(name + seq!['='] + address),
            scheme,
        ) == address_for(parts, scheme),
        address_for(parts.push(other), scheme) == address_for(parts, scheme),
{
    let part = name + seq!['='] + address;
    assert forall|i: int| 0 <= i < name.len() implies part[i] != '=' by {
        assert(name.contains(name[i]));
    }
    lemma_position_is(part, '=', name.len() as int);
    assert(part.take(name.len() as int) =~= name);
    assert(part.skip(name.len() + 1int) =~= address);
    assert forall|i: int| 0 <= i < other.len() implies other[i] != '=' by {
        assert(other.contains(other[i]));
    }
    lemma_position_is(other, '=', other.len() as int);
    assert(parts.push(part).drop_last() =~= parts);
    assert(parts.push(other).drop_last() =~= parts);
}

/// The proxies of a setting: one address for both schemes, or the address of
/// each of the parts between semicolons, where each stands in for a missing
/// one.
pub proof fn law_proxies(server: Seq<char>)
    ensures
        ({
            let http = address_for(split(server, ';'), "http"@);
            let https = address_for(split(server, ';'), "https"@);
            let both = proxies(server);
            &&& !server.contains('=') ==> both.0 == server && both.1 == server
            &&& server.contains('=') && http.len() > 0 ==> both.0 == http
            &&& server.contains('=') && http.len() == 0 ==> both.0 == https
            &&& server.contains('=') && https.len() > 0 ==> both.1 == https
            &&& server.contains('=') && https.len() == 0 ==> both.1 == http
        }),
{
}

/// The variables are set where none are set yet, the registry says that a
/// proxy is used, and it gives one: both of them, each with its proxy.
pub proof fn law_planned_variables(
    already_set: bool,
    enable: Option<Seq<char>>,
    server: Option<Seq<char>>,
)
    ensures
        ({
            let vars = planned(already_set, enable, server);
            let used = !already_set && enable is Some && !lacks(enable->0, "0x1"@) && server is Some
                && proxies(server_value(server->0)).0.len() > 0;
            let both = proxies(server_value(server->0));
            &&& !used ==> vars.len() == 0
            &&& used ==> vars == seq![("HTTP_PROXY"@, both.0), ("HTTPS_PROXY"@, both.1)]
        }),
{
    if enable is Some {
        law_has_text(enable->0, "0x1"@, enable->0, enable->0);
    }
    if server is Some {
        let value = server_value(server->0);
        law_proxies_come_together(value);
        let both = proxies(value);
        if both.0.len() > 0 {
            assert(variables(value) =~= seq![("HTTP_PROXY"@, both.0), ("HTTPS_PROXY"@, both.1)]);
        } else {
            assert(variables(value).len() == 0);
        }
    }
}

/// Of the addresses that a lookup finds, in their order, the version 4 ones are
/// used that can be reached from everywhere, and all of them where private ones
/// are allowed; the port is that of the request.
pub proof fn law_used_addresses(
    found: Seq<SocketAddr>,
    allow_private: bool,
    a: u8,
    b: u8,
    c: u8,
    d: u8,
    s: [u16; 8],
    port: u16,
)
    ensures
        usable(Seq::<SocketAddr>::empty(), allow_private) == Seq::<SocketAddr>::empty(),
        allow_private || !is_closed(number_of(a, b, c, d)) ==> usable(
            found.push(SocketAddr { ip: IpAddr::V4(a, b, c, d), port }),
            allow_private,
        ) == usable(found, allow_private).push(SocketAddr { ip: IpAddr::V4(a, b, c, d), port: 0 }),
        !allow_private && is_closed(number_of(a, b, c, d)) ==> usable(
            found.push(SocketAddr { ip: IpAddr::V4(a, b, c, d), port }),
            allow_private,
        ) == usable(found, allow_private),
        usable(found.push(SocketAddr { ip: IpAddr::V6(s), port }), allow_private) == usable(
            found,
            allow_private,
        ),
{
    law_global_v4(a, b, c, d);
    assert(found.push(SocketAddr { ip: IpAddr::V4(a, b, c, d), port }).drop_last() =~= found);
    assert(found.push(SocketAddr { ip: IpAddr::V6(s), port }).drop_last() =~= found);
}

/// What is remembered of a host is given back for less than sixty thousand
/// million nanoseconds, which is one minute, where it is anything.
pub proof fn law_remembered_for_a_minute(resolver: Ipv4Resolver, host: Seq<char>, now: u64)
    ensures
        !resolver.cache@.contains_key(host) ==> resolver.remembered(host, now) is None,
        resolver.cache@.contains_key(host) ==> {
            let entry = resolver.cache@[host];
            if entry.addrs@.len() > 0 && now < entry.found_at + 60_000_000_000 {
                resolver.remembered(host, now) == Some(entry.addrs@)
            } else {
                resolver.remembered(host, now) is None
            }
        },
{
}

/// The variables that make the proxies of a setting known, each with its proxy;
/// an empty proxy is none.
pub proof fn law_variables(server: Seq<char>)
    ensures
        ({
            let both = proxies(server);
            &&& both.0.len() > 0 && both.1.len() > 0 ==> variables(server) == seq![
                ("HTTP_PROXY"@, both.0),
                ("HTTPS_PROXY"@, both.1),
            ]
            &&& both.0.len() == 0 && both.1.len() == 0 ==> variables(server).len() == 0
        }),
{
    let both = proxies(server);
    assert(seq![("HTTP_PROXY"@, both.0)].push(("HTTPS_PROXY"@, both.1)) =~= seq![
        ("HTTP_PROXY"@, both.0),
        ("HTTPS_PROXY"@, both.1),
    ]);
}

/// Each setting of the proxy comes from its own variable alone, else it is the
/// usual one; the address comes from the switch too, and from the port.
pub proof fn law_settings(args: Seq<Seq<char>>, env: Environment, port: u16)
    ensures
        ({
            let s = set_up(args, env, port);
            &&& opt_text(env.proxy_base) matches Some(v) ==> s.proxy_base == v
            &&& opt_text(env.proxy_base) is None ==> s.proxy_base == "http://"@ + local_address(
                args,
                opt_text(env.local_ip),
            ) + ":"@ + decimal(port as nat) + "/?url="@
            &&& s.allow_hosts == host_list(opt_text(env.allow_hosts))
            &&& s.allow_private <==> is_switched_on(opt_text(env.allow_private))
            &&& opt_text(env.default_referer) matches Some(v) ==> s.default_referer == v
            &&& opt_text(env.default_referer) is None ==> s.default_referer
                == "https://missav.ws/dm242/cn"@
            &&& opt_text(env.default_ua) matches Some(v) ==> s.default_ua == v
            &&& opt_text(env.default_ua) is None ==> s.default_ua
                == "Mozilla/5.0 (Windows NT 10.0; Win64; x64) AppleWebKit/537.36 (KHTML, like Gecko) Chrome/120.0.0.0 Safari/537.36"@
        }),
{
}

} // verus!
