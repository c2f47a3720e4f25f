//! How the proxy is set up from the command line and the environment.
use vstd::prelude::*;

use crate::handler::{listed_hosts, AppState};
use crate::text::{
    ascii_lower, chars_of, decimal, opt_text, push_decimal, same_text, small, split, split_chars,
    text_of, texts, to_ascii_lower, to_small, trim, trim_chars,
};

verus! {

/// The variables of the environment that set the proxy up, where they are set.
pub struct Environment {
    /// `LOCAL_IP`: the address of this machine.
    pub local_ip: Option<String>,
    /// `ALLOW_PRIVATE`: whether private addresses may be asked for.
    pub allow_private: Option<String>,
    /// `ALLOW_HOSTS`: the hosts that may be asked for, with commas between them.
    pub allow_hosts: Option<String>,
    /// `DEFAULT_REFERER`: the referer of a request whose client gives none.
    pub default_referer: Option<String>,
    /// `DEFAULT_USER_AGENT`: the user agent of a request whose client gives none.
    pub default_ua: Option<String>,
    /// `PROXY_BASE`: the address of the proxy, up to the address of the resource.
    pub proxy_base: Option<String>,
}

/// The referer of a request, where none is set.
pub open spec fn usual_referer() -> Seq<char> {
    "https://missav.ws/dm242/cn"@
}

/// The user agent of a request, where none is set.
pub open spec fn usual_ua() -> Seq<char> {
    "Mozilla/5.0 (Windows NT 10.0; Win64; x64) AppleWebKit/537.36 (KHTML, like Gecko) Chrome/120.0.0.0 Safari/537.36"@
}

/// A text, or else the one that stands in for it.
pub open spec fn or_else(text: Option<Seq<char>>, other: Seq<char>) -> Seq<char> {
    match text {
        Some(t) => t,
        None => other,
    }
}

/// What follows the first `-Li` among the arguments.
pub open spec fn li_argument(args: Seq<Seq<char>>) -> Option<Seq<char>>
    decreases args.len(),
{
    if args.len() == 0 {
        None
    } else if args[0] == "-Li"@ {
        if args.len() > 1 {
            Some(args[1])
        } else {
            None
        }
    } else {
        li_argument(args.drop_first())
    }
}

/// The address of this machine: that of the command line, else that of the
/// environment, else the usual one.
pub open spec fn local_address(args: Seq<Seq<char>>, local_ip: Option<Seq<char>>) -> Seq<char> {
    match li_argument(args) {
        Some(ip) => ip,
        None => or_else(local_ip, "192.168.1.1"@),
    }
}

/// Private addresses may be asked for.
pub open spec fn is_switched_on(value: Option<Seq<char>>) -> bool {
    value matches Some(v) && (v == "1"@ || ascii_lower(v) == "true"@)
}

/// The entries of a list, trimmed and in small letters, without empty ones.
pub open spec fn entries(parts: Seq<Seq<char>>) -> Seq<Seq<char>>
    decreases parts.len(),
{
    if parts.len() == 0 {
        seq![]
    } else {
        let entry = small(trim(parts.last()));
        if entry.len() == 0 {
            entries(parts.drop_last())
        } else {
            entries(parts.drop_last()).push(entry)
        }
    }
}

/// The hosts that may be asked for, where a list is set: the one that always
/// may, and those of the list.
pub open spec fn host_list(value: Option<Seq<char>>) -> Option<Seq<Seq<char>>> {
    match value {
        Some(list) => Some(seq!["surrit.com"@] + entries(split(list, ','))),
        None => None,
    }
}

/// The address of the proxy on this machine, up to the address of the resource.
pub open spec fn local_base(local_ip: Seq<char>, port: u16) -> Seq<char> {
    "http://"@ + local_ip + ":"@ + decimal(port as nat) + "/?url="@
}

/// Finds what follows the first `-Li` among the arguments.
fn find_li(args: &Vec<String>) -> (r: Option<String>)
    ensures
        opt_text(r) == li_argument(texts(args@)),
{
    let n: usize = args.len();
    let ghost all = texts(args@);
    assert(all.skip(0) =~= all);
    for i in 0..n
        invariant
            n == args@.len(),
            all == texts(args@),
            li_argument(all) == li_argument(all.skip(i as int)),
    {
        let arg = chars_of(args[i].as_str());
        let ghost rest = all.skip(i as int);
        assert(rest[0] == arg@);
        assert(rest.drop_first() =~= all.skip(i + 1));
        if same_text(arg.as_slice(), "-Li") {
            if i + 1 < n {
                assert(rest[1] == args@[i + 1]@);
                return Some(args[i + 1].clone());
            }
            return None;
        }
    }
    assert(all.skip(n as int) =~= Seq::<Seq<char>>::empty());
    None
}

/// A set text, or else the usual one.
fn set_or(value: &Option<String>, usual: &str) -> (r: String)
    ensures
        r@ == or_else(opt_text(*value), usual@),
{
    match value {
        Some(v) => v.clone(),
        None => usual.to_owned(),
    }
}

/// The address of this machine.
pub fn local_ip(args: &Vec<String>, value: &Option<String>) -> (r: String)
    ensures
        r@ == local_address(texts(args@), opt_text(*value)),
{
    match find_li(args) {
        Some(ip) => ip,
        None => set_or(value, "192.168.1.1"),
    }
}

/// Whether private addresses may be asked for.
pub fn allow_private(value: &Option<String>) -> (r: bool)
    ensures
        r == is_switched_on(opt_text(*value)),
{
    match value {
        Some(v) => {
            let chars = chars_of(v.as_str());
            let lower = to_ascii_lower(chars.as_slice());
            same_text(chars.as_slice(), "1") || same_text(lower.as_slice(), "true")
        },
        None => false,
    }
}

/// The hosts that may be asked for; all of them where no list is set.
pub fn allow_hosts(value: &Option<String>) -> (r: Option<Vec<String>>)
    ensures
        (match r {
            Some(list) => Some(texts(list@)),
            None => None,
        }) == host_list(opt_text(*value)),
{
    let list = match value {
        Some(list) => list,
        None => {
            return None;
        },
    };
    let mut out: Vec<String> = Vec::new();
    out.push("surrit.com".to_owned());
    let chars = chars_of(list.as_str());
    let parts = split_chars(chars.as_slice(), ',');
    let ghost all = split(list@, ',');
    let n: usize = parts.len();
    proof {
        assert(all.take(0) =~= Seq::<Seq<char>>::empty());
        assert(texts(out@) =~= seq!["surrit.com"@] + entries(all.take(0)));
    }
    for i in 0..n
        invariant
            n == parts@.len(),
            n == all.len(),
            forall|j: int| 0 <= j < n ==> (#[trigger] parts@[j])@ == all[j],
            texts(out@) == seq!["surrit.com"@] + entries(all.take(i as int)),
    {
        proof {
            assert(all.take(i + 1).drop_last() =~= all.take(i as int));
            assert(all.take(i + 1).last() == parts@[i as int]@);
        }
        let trimmed = text_of(trim_chars(parts[i]));
        let entry = to_small(trimmed.as_str());
        if !entry.as_str().is_empty() {
            let ghost before = out@;
            out.push(entry);
            assert(texts(out@) =~= texts(before).push(entry@));
            assert(texts(before).push(entry@) =~= seq!["surrit.com"@] + entries(
                all.take(i as int),
            ).push(entry@));
        }
    }
    assert(all.take(n as int) =~= all);
    Some(out)
}

/// The address of the proxy, up to the address of the resource.
pub fn proxy_base(value: &Option<String>, local_ip: &str, port: u16) -> (r: String)
    ensures
        r@ == or_else(opt_text(*value), local_base(local_ip@, port)),
{
    match value {
        Some(v) => v.clone(),
        None => {
            let mut out = "http://".to_owned().concat(local_ip).concat(":");
            push_decimal(&mut out, port);
            out.append("/?url=");
            out
        },
    }
}

/// What a setup says.
pub struct Setup {
    pub proxy_base: Seq<char>,
    pub allow_hosts: Option<Seq<Seq<char>>>,
    pub allow_private: bool,
    pub default_referer: Seq<char>,
    pub default_ua: Seq<char>,
}

/// What the setup of the proxy says.
pub open spec fn setup_of(state: AppState) -> Setup {
    Setup {
        proxy_base: state.proxy_base@,
        allow_hosts: listed_hosts(state),
        allow_private: state.allow_private,
        default_referer: state.default_referer@,
        default_ua: state.default_ua@,
    }
}

/// The setup from the arguments, the environment and the port.
pub open spec fn set_up(args: Seq<Seq<char>>, env: Environment, port: u16) -> Setup {
    Setup {
        proxy_base: or_else(
            opt_text(env.proxy_base),
            local_base(local_address(args, opt_text(env.local_ip)), port),
        ),
        allow_hosts: host_list(opt_text(env.allow_hosts)),
        allow_private: is_switched_on(opt_text(env.allow_private)),
        default_referer: or_else(opt_text(env.default_referer), usual_referer()),
        default_ua: or_else(opt_text(env.default_ua), usual_ua()),
    }
}

/// Sets the proxy up from the arguments behind the program's name, the
/// environment and the port that it listens on.
pub fn configure(args: &Vec<String>, env: &Environment, port: u16) -> (r: AppState)
    ensures
        r.proxy_base@ == or_else(
            opt_text(env.proxy_base),
            local_base(local_address(texts(args@), opt_text(env.local_ip)), port),
        ),
        listed_hosts(r) == host_list(opt_text(env.allow_hosts)),
        r.allow_private == is_switched_on(opt_text(env.allow_private)),
        r.default_referer@ == or_else(opt_text(env.default_referer), usual_referer()),
        r.default_ua@ == or_else(opt_text(env.default_ua), usual_ua()),
        setup_of(r) == set_up(texts(args@), *env, port),
{
    let ip = local_ip(args, &env.local_ip);
    AppState {
        proxy_base: proxy_base(&env.proxy_base, ip.as_str(), port),
        allow_hosts: allow_hosts(&env.allow_hosts),
        allow_private: allow_private(&env.allow_private),
        default_referer: set_or(&env.default_referer, "https://missav.ws/dm242/cn"),
        default_ua: set_or(
            &env.default_ua,
            "Mozilla/5.0 (Windows NT 10.0; Win64; x64) AppleWebKit/537.36 (KHTML, like Gecko) Chrome/120.0.0.0 Safari/537.36",
        ),
    }
}

} // verus!
