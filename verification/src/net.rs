//! Where the panel listens, and where it sends those who come by plain HTTP.
use vstd::prelude::*;

use crate::numbers;
use crate::setup::TlsConfig;
use crate::setup::TlsConfigView;
use crate::text;
use crate::text::CharClass;

verus! {

/// The port for plain HTTP where the environment names none.
pub const DEFAULT_PORT: u16 = 3000;

/// The port for HTTP: the one that the environment names, or the other one.
pub open spec fn port_of(port: Option<Seq<char>>, otherwise: u16) -> u16 {
    match port {
        Some(s) => match numbers::parsed(s, u16::MAX as nat) {
            Some(n) => n as u16,
            None => otherwise,
        },
        None => otherwise,
    }
}

/// The port for HTTP that is taken where the environment names none: what serves the panel
/// itself has the usual one, what sends to HTTPS the one that was chosen for it.
pub open spec fn usual_port(cfg: TlsConfigView) -> u16 {
    if cfg.enabled {
        cfg.http_port
    } else {
        DEFAULT_PORT
    }
}

/// The port for HTTP: the one that the environment names, or the usual one.
pub fn http_port(cfg: &TlsConfig, port: Option<&str>) -> (r: u16)
    ensures
        r == port_of(text::opt_str_view(port), usual_port(cfg@)),
{
    let otherwise: u16 = if cfg.enabled {
        cfg.http_port
    } else {
        DEFAULT_PORT
    };
    match port {
        Some(s) => match numbers::parse_number(s, u16::MAX as u64) {
            Some(n) => n as u16,
            None => otherwise,
        },
        None => otherwise,
    }
}

/// The address that the panel listens at: all addresses of the machine, unless the environment
/// names one.
pub open spec fn address_of(bind: Option<Seq<char>>, port: u16) -> Seq<char> {
    (match bind {
        Some(addr) => addr,
        None => "0.0.0.0"@,
    }) + ":"@ + numbers::digits(port as nat)
}

/// The address that the panel listens at: all addresses of the machine, unless the environment
/// names one.
pub fn listen_address(bind: Option<&str>, port: u16) -> (r: String)
    ensures
        r@ == address_of(text::opt_str_view(bind), port),
{
    let number = numbers::decimal(port as u64);
    match bind {
        Some(addr) => text::cat3(addr, ":", number.as_str()),
        None => text::cat3("0.0.0.0", ":", number.as_str()),
    }
}

/// How the panel is served.
#[derive(Debug)]
pub enum Serving {
    /// By plain HTTP at that address.
    Http { address: String },
    /// By HTTPS, with what sends the others there.
    Https {
        address: String,
        redirect_address: String,
        cert: String,
        key: String,
        /// The domain, for the log.
        domain: String,
    },
}

/// How the panel is served: by HTTPS where that is configured, or else by plain HTTP. The port
/// for HTTP and the address may come from the environment.
pub fn serving(cfg: &TlsConfig, bind: Option<&str>, port: Option<&str>) -> (r: Serving)
    requires
        cfg.enabled ==> cfg.cert.is_some() && cfg.key.is_some(),
    ensures
        ({
            let bound = text::opt_str_view(bind);
            let http = address_of(bound, port_of(text::opt_str_view(port), usual_port(cfg@)));
            match r {
                Serving::Http { address } => !cfg.enabled && address@ == http,
                Serving::Https { address, redirect_address, cert, key, domain } => {
                    &&& cfg.enabled
                    &&& address@ == address_of(bound, cfg.https_port)
                    &&& redirect_address@ == http
                    &&& cfg@.cert == Some(cert@)
                    &&& cfg@.key == Some(key@)
                    &&& domain@ == (match cfg@.domain {
                        Some(d) => d,
                        None => Seq::empty(),
                    })
                },
            }
        }),
{
    let http = listen_address(bind, http_port(cfg, port));
    if cfg.enabled {
        let cert = text::copy_opt(&cfg.cert);
        let key = text::copy_opt(&cfg.key);
        let domain = match &cfg.domain {
            Some(d) => d.clone(),
            None => {
                let none = String::new();
                proof {
                    assert(none@ =~= Seq::<char>::empty());
                }
                none
            },
        };
        Serving::Https {
            address: listen_address(bind, cfg.https_port),
            redirect_address: http,
            cert: cert.unwrap(),
            key: key.unwrap(),
            domain,
        }
    } else {
        Serving::Http { address: http }
    }
}

/// The name in a host header: what stands before the port.
pub open spec fn host_name(host: Seq<char>) -> Seq<char> {
    text::split_at_class(host, CharClass::Is(':'))[0]
}

/// Where a request by plain HTTP is sent: to the same place by HTTPS.
pub open spec fn redirect_of(host: Option<Seq<char>>, path: Option<Seq<char>>, port: u16) -> Seq<
    char,
> {
    let name = match host {
        Some(h) => host_name(h),
        None => Seq::empty(),
    };
    let shown = if port == 443 {
        Seq::empty()
    } else {
        ":"@ + numbers::digits(port as nat)
    };
    "https://"@ + name + shown + (match path {
        Some(p) => p,
        None => "/"@,
    })
}

/// Where a request by plain HTTP is sent: to the same place by HTTPS. The port is left out where
/// it is the usual one.
pub fn redirect_target(host: Option<&str>, path_and_query: Option<&str>, https_port: u16) -> (r:
    String)
    ensures
        ({
            let name = match host {
                Some(h) => host_name(h@),
                None => Seq::empty(),
            };
            let path = match path_and_query {
                Some(p) => p@,
                None => "/"@,
            };
            r@ == (if https_port == 443 {
                "https://"@ + name + path
            } else {
                "https://"@ + name + ":"@ + numbers::digits(https_port as nat) + path
            })
        }),
        r@ == redirect_of(
            text::opt_str_view(host),
            text::opt_str_view(path_and_query),
            https_port,
        ),
{
    let name = match host {
        Some(h) => {
            let parts = text::split(h, CharClass::Is(':'));
            proof {
                text::lemma_split_some(h@, CharClass::Is(':'));
                assert(text::views(parts@)[0] == parts@[0]@);
            }
            parts[0].clone()
        },
        None => {
            let none = String::new();
            proof {
                assert(none@ =~= Seq::<char>::empty());
            }
            none
        },
    };
    let mut out = text::cat("https://", name.as_str());
    if https_port != 443 {
        out.push_str(":");
        out.push_str(numbers::decimal(https_port as u64).as_str());
    }
    match path_and_query {
        Some(p) => out.push_str(p),
        None => out.push_str("/"),
    }
    proof {
        assert(out@ =~= redirect_of(
            text::opt_str_view(host),
            text::opt_str_view(path_and_query),
            https_port,
        ));
    }
    out
}

// ── Laws ──────────────────────────────────────────────────────────────────

/// The port that the environment names is taken, whichever it is. Where it names none, or
/// something that is no port, the usual one is taken: the one that was chosen for what sends to
/// HTTPS, or 3000 where the panel is served by plain HTTP.
pub proof fn law_port_is_taken(n: nat, cfg: TlsConfigView, other: Seq<char>, i: int)
    requires
        0 <= i < other.len(),
        !(48 <= other[i] as u32 <= 57),
        i > 0 || other[0] as u32 != 43,
    ensures
        n <= 65535 ==> port_of(Some(numbers::digits(n)), usual_port(cfg)) == n,
        n > 65535 ==> port_of(Some(numbers::digits(n)), usual_port(cfg)) == usual_port(cfg),
        numbers::parsed(other, 65535).is_none(),
        port_of(None, usual_port(cfg)) == usual_port(cfg),
        port_of(Some(other), usual_port(cfg)) == usual_port(cfg),
        port_of(Some(Seq::empty()), usual_port(cfg)) == usual_port(cfg),
        cfg.enabled ==> usual_port(cfg) == cfg.http_port,
        !cfg.enabled ==> usual_port(cfg) == 3000,
{
    numbers::law_decimal_reads_back(n, 65535);
    numbers::law_only_digits_are_read(other, 65535, i);
}

/// The panel listens at the address that the environment names, or at all, and at its port: what
/// follows the colon is read as that port.
pub proof fn law_address_names_port(addr: Seq<char>, port: u16)
    ensures
        exists|number: Seq<char>|
            #![trigger numbers::parsed(number, 65535)]
            address_of(Some(addr), port) == addr + ":"@ + number && address_of(None, port)
                == "0.0.0.0"@ + ":"@ + number && numbers::parsed(number, 65535) == Some(
                port as nat,
            ),
{
    numbers::law_decimal_reads_back(port as nat, 65535);
    let number = numbers::digits(port as nat);
    assert(numbers::parsed(number, 65535) == Some(port as nat));
}

/// The name in a host header is what stands before the first colon, and all of it where there is
/// none.
pub proof fn law_host_name(name: Seq<char>, rest: Seq<char>)
    requires
        !name.contains(':'),
    ensures
        host_name(name) == name,
        host_name(name + seq![':'] + rest) == name,
{
    let class = CharClass::Is(':');
    assert forall|i: int| 0 <= i < name.len() implies !class.has(#[trigger] name[i]) by {
        assert(name.contains(name[i]));
    }
    text::lemma_split_one(name, class);
    text::lemma_split_around(name, ':', rest, class);
    assert(name.push(':') + rest =~= name + seq![':'] + rest);
}

/// Whoever comes by plain HTTP is sent to the same path of the same host by HTTPS, whatever port
/// they came to: to the usual port without a word, to any other by its number. Where no path is
/// known it is the first page.
pub proof fn law_sent_to_the_same_place(
    name: Seq<char>,
    rest: Seq<char>,
    path: Seq<char>,
    port: u16,
)
    requires
        !name.contains(':'),
    ensures
        redirect_of(Some(name), Some(path), 443) == "https://"@ + name + path,
        redirect_of(Some(name + seq![':'] + rest), Some(path), port) == redirect_of(
            Some(name),
            Some(path),
            port,
        ),
        redirect_of(Some(name), None, port) == redirect_of(Some(name), Some("/"@), port),
        port != 443 ==> exists|number: Seq<char>|
            #![trigger numbers::parsed(number, 65535)]
            redirect_of(Some(name), Some(path), port) == "https://"@ + name + ":"@ + number + path
                && numbers::parsed(number, 65535) == Some(port as nat),
{
    law_host_name(name, rest);
    let none = Seq::<char>::empty();
    assert("https://"@ + name + none + path =~= "https://"@ + name + path);
    let number = numbers::digits(port as nat);
    numbers::law_decimal_reads_back(port as nat, 65535);
    assert(numbers::parsed(number, 65535) == Some(port as nat));
    assert("https://"@ + name + (":"@ + number) + path =~= "https://"@ + name + ":"@ + number
        + path);
}

/// Whatever is read as a port is that port, and whatever is not leaves the other one.
pub proof fn law_port_is_read(s: Seq<char>, otherwise: u16)
    ensures
        numbers::parsed(s, 65535) matches Some(n) ==> port_of(Some(s), otherwise) == n,
        numbers::parsed(s, 65535).is_none() ==> port_of(Some(s), otherwise) == otherwise,
        port_of(None, otherwise) == otherwise,
{
}

} // verus!
