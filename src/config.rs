use vstd::prelude::*;

verus! {

/// The sections of the engine's configuration that the application reads.
pub struct MihomoConfig {
    pub port: Option<u32>,
    pub socks_port: Option<u32>,
    pub mixed_port: Option<u32>,
    pub allow_lan: Option<bool>,
    pub mode: Option<String>,
    pub log_level: Option<String>,
    pub external_controller: Option<String>,
    pub tun: Option<TunConfig>,
    pub dns: Option<DnsConfig>,
}

/// The `tun` section.
pub struct TunConfig {
    pub enable: bool,
    pub stack: Option<String>,
    pub device_name: Option<String>,
    pub auto_route: Option<bool>,
    pub auto_detect_interface: Option<bool>,
}

/// The `dns` section.
pub struct DnsConfig {
    pub enable: bool,
    pub listen: Option<String>,
    pub enhanced_mode: Option<String>,
    pub nameserver: Option<Vec<String>>,
    pub fallback: Option<Vec<String>>,
}

/// Which keys of the `tun` section hold a value.
#[derive(Clone, Copy, Debug, PartialEq, Eq, Structural)]
pub struct TunKeysSet {
    pub stack: bool,
    pub auto_route: bool,
    pub auto_detect_interface: bool,
    pub dns_hijack: bool,
    pub mtu: bool,
}

/// A default that TUN mode needs: `stack: system`, `auto-route: true`,
/// `auto-detect-interface: true`, `dns-hijack: [any:53]`, `mtu: 1500`.
#[derive(Clone, Copy, Debug, PartialEq, Eq, Structural)]
pub enum TunDefault {
    Stack,
    AutoRoute,
    AutoDetectInterface,
    DnsHijack,
    Mtu,
}

pub open spec fn opt_default(missing: bool, d: TunDefault) -> Seq<TunDefault> {
    if missing {
        seq![d]
    } else {
        Seq::empty()
    }
}

/// The defaults to fill in when TUN mode is switched to `enable`: none when
/// it is switched off, else each one whose key holds no value, in key order.
pub open spec fn tun_defaults_of(enable: bool, set: TunKeysSet) -> Seq<TunDefault> {
    if !enable {
        Seq::empty()
    } else {
        opt_default(!set.stack, TunDefault::Stack) + opt_default(!set.auto_route, TunDefault::AutoRoute)
            + opt_default(!set.auto_detect_interface, TunDefault::AutoDetectInterface)
            + opt_default(!set.dns_hijack, TunDefault::DnsHijack) + opt_default(!set.mtu, TunDefault::Mtu)
    }
}

/// The defaults to fill in when TUN mode is switched to `enable`.
pub fn tun_defaults(enable: bool, set: TunKeysSet) -> (r: Vec<TunDefault>)
    ensures
        r@ == tun_defaults_of(enable, set),
{
    let mut r: Vec<TunDefault> = Vec::new();
    if !enable {
        assert(r@ == tun_defaults_of(enable, set));
        return r;
    }
    let ghost mut want: Seq<TunDefault> = Seq::empty();
    if !set.stack {
        r.push(TunDefault::Stack);
    }
    proof { want = want + opt_default(!set.stack, TunDefault::Stack); }
    assert(r@ == want);
    if !set.auto_route {
        r.push(TunDefault::AutoRoute);
    }
    proof { want = want + opt_default(!set.auto_route, TunDefault::AutoRoute); }
    assert(r@ == want);
    if !set.auto_detect_interface {
        r.push(TunDefault::AutoDetectInterface);
    }
    proof { want = want + opt_default(!set.auto_detect_interface, TunDefault::AutoDetectInterface); }
    assert(r@ == want);
    if !set.dns_hijack {
        r.push(TunDefault::DnsHijack);
    }
    proof { want = want + opt_default(!set.dns_hijack, TunDefault::DnsHijack); }
    assert(r@ == want);
    if !set.mtu {
        r.push(TunDefault::Mtu);
    }
    proof { want = want + opt_default(!set.mtu, TunDefault::Mtu); }
    assert(r@ == want);
    r
}

} // verus!
