//! Names and records under which a session is announced on the local
//! network (mDNS, service type `_dropshare._tcp.local.`).
//!
//! A DNS label holds at most 63 bytes, so the instance name (the machine's
//! name followed by ` (DropShare-<mode>)`) is cut, at a character boundary,
//! to fit that many bytes of UTF-8.

use vstd::prelude::*;
use vstd::utf8::{encode_scalar, encode_utf8, char_is_scalar};
use crate::text::{chars_of, push_char};

verus! {

/// The mDNS service type of a session.
pub const SERVICE_TYPE: &'static str = "_dropshare._tcp.local.";

/// The most bytes an instance name may have.
pub const MAX_INSTANCE_LEN: usize = 63;

/// Bytes of the UTF-8 encoding of `c`.
pub open spec fn utf8_width(c: char) -> nat {
    encode_scalar(c as u32).len()
}

/// Bytes of the UTF-8 encoding of `s`.
pub open spec fn utf8_len(s: Seq<char>) -> nat {
    encode_utf8(s).len()
}

/// The longest prefix of `s` that fits in `budget` bytes of UTF-8.
pub open spec fn fitting_prefix(s: Seq<char>, budget: int) -> Seq<char>
    decreases s.len(),
{
    if s.len() == 0 || utf8_width(s[0]) > budget {
        Seq::empty()
    } else {
        seq![s[0]] + fitting_prefix(s.drop_first(), budget - utf8_width(s[0]))
    }
}

/// The part of an instance name that tells the session's mode.
pub open spec fn mdns_suffix(mode: Seq<char>) -> Seq<char> {
    " (DropShare-"@ + mode + ")"@
}

/// The instance name announced for a machine called `pc_name` hosting a
/// session in `mode`: as much of the machine's name as leaves room for the
/// suffix, then the suffix; when the suffix alone is too long and no
/// character of the name fits, as much of the suffix as fits.
pub open spec fn mdns_instance_name(pc_name: Seq<char>, mode: Seq<char>) -> Seq<char> {
    let suffix = mdns_suffix(mode);
    let sl = utf8_len(suffix);
    let budget = if sl >= 63 { 0 } else { 63 - sl };
    let prefix = fitting_prefix(pc_name, budget);
    if prefix.len() == 0 && sl > 63 {
        fitting_prefix(suffix, 63)
    } else {
        prefix + suffix
    }
}

/// `s` with every space replaced by a dash.
pub open spec fn dashed(s: Seq<char>) -> Seq<char> {
    s.map_values(|c: char| if c == ' ' { '-' } else { c })
}

/// The host name announced with an instance name.
pub open spec fn mdns_host_name(instance: Seq<char>) -> Seq<char> {
    dashed(instance) + ".local."@
}

/// The encoding of a concatenation is the concatenation of the encodings.
proof fn lemma_utf8_concat(a: Seq<char>, b: Seq<char>)
    ensures
        encode_utf8(a + b) == encode_utf8(a) + encode_utf8(b),
    decreases a.len(),
{
    if a.len() == 0 {
        assert(a + b =~= b);
        assert(encode_utf8(a) =~= Seq::<u8>::empty());
        assert(encode_utf8(a) + encode_utf8(b) =~= encode_utf8(b));
    } else {
        lemma_utf8_concat(a.drop_first(), b);
        assert((a + b).drop_first() =~= a.drop_first() + b);
        assert((a + b)[0] == a[0]);
        assert(encode_utf8(a + b) == encode_scalar(a[0] as u32) + encode_utf8(a.drop_first() + b));
        assert(encode_utf8(a + b) =~= encode_scalar(a[0] as u32) + encode_utf8(a.drop_first())
            + encode_utf8(b));
    }
}

/// The byte length of a single character's sequence is its width.
proof fn lemma_utf8_single(c: char)
    ensures
        utf8_len(seq![c]) == utf8_width(c),
{
    assert(seq![c].drop_first() =~= Seq::<char>::empty());
    assert(encode_utf8(Seq::<char>::empty()) =~= Seq::<u8>::empty());
    assert(encode_utf8(seq![c]) =~= encode_scalar(c as u32));
}

/// Every character takes one to four bytes.
proof fn lemma_utf8_width_bounds(c: char)
    ensures
        1 <= utf8_width(c) <= 4,
{
}

/// A fitting prefix is a prefix of `s` and fits in the budget.
proof fn lemma_fitting_prefix(s: Seq<char>, budget: int)
    ensures
        fitting_prefix(s, budget).len() <= s.len(),
        fitting_prefix(s, budget) == s.take(fitting_prefix(s, budget).len() as int),
        budget >= 0 ==> utf8_len(fitting_prefix(s, budget)) <= budget,
        budget < 1 ==> fitting_prefix(s, budget).len() == 0,
    decreases s.len(),
{
    if s.len() > 0 {
        lemma_utf8_width_bounds(s[0]);
    }
    if s.len() == 0 || utf8_width(s[0]) > budget {
        assert(encode_utf8(Seq::<char>::empty()) =~= Seq::<u8>::empty());
        assert(s.take(0) =~= Seq::<char>::empty());
    } else {
        let w = utf8_width(s[0]);
        let rest = fitting_prefix(s.drop_first(), budget - w);
        lemma_fitting_prefix(s.drop_first(), budget - w);
        lemma_utf8_concat(seq![s[0]], rest);
        lemma_utf8_single(s[0]);
        assert(seq![s[0]] + rest =~= s.take(rest.len() + 1 as int));
    }
}

/// Bytes of the UTF-8 encoding of `c`.
fn char_width(c: char) -> (w: usize)
    ensures
        w == utf8_width(c),
{
    proof {
        char_is_scalar(c);
    }
    let v = c as u32;
    if v < 0x80 {
        1
    } else if v < 0x800 {
        2
    } else if v < 0x10000 {
        3
    } else {
        4
    }
}

/// The longest prefix of `s` that fits in `budget` bytes of UTF-8.
fn fitting_prefix_of(s: &[char], budget: usize) -> (r: String)
    ensures
        r@ == fitting_prefix(s@, budget as int),
{
    let mut out = String::new();
    let mut used: usize = 0;
    let mut i: usize = 0;
    let n = s.len();
    assert(s@.skip(0) =~= s@);
    assert(out@ =~= s@.take(0));
    while i < n
        invariant
            n == s@.len(),
            i <= n,
            used <= budget,
            out@ == s@.take(i as int),
            fitting_prefix(s@, budget as int) == out@ + fitting_prefix(
                s@.skip(i as int),
                budget - used,
            ),
        decreases n - i,
    {
        let w = char_width(s[i]);
        if w > budget - used {
            assert(fitting_prefix(s@.skip(i as int), budget - used) =~= Seq::<char>::empty());
            assert(out@ + Seq::<char>::empty() =~= out@);
            return out;
        }
        proof {
            let rest = s@.skip(i as int);
            assert(rest[0] == s@[i as int]);
            assert(rest.drop_first() =~= s@.skip(i + 1));
            assert(out@.push(s@[i as int]) + fitting_prefix(s@.skip(i + 1), budget - used - w)
                =~= out@ + (seq![s@[i as int]] + fitting_prefix(
                rest.drop_first(),
                budget - used - w,
            )));
        }
        push_char(&mut out, s[i]);
        used = used + w;
        i = i + 1;
        assert(out@ =~= s@.take(i as int));
    }
    assert(s@.skip(n as int) =~= Seq::<char>::empty());
    assert(out@ + Seq::<char>::empty() =~= out@);
    out
}

/// Replaces every space of `s` with a dash.
fn dashed_string(s: &str) -> (r: String)
    ensures
        r@ == dashed(s@),
{
    let cs = chars_of(s);
    let mut out = String::new();
    let mut i: usize = 0;
    while i < cs.len()
        invariant
            cs@ == s@,
            i <= cs@.len(),
            out@ == dashed(s@.take(i as int)),
        decreases cs@.len() - i,
    {
        let c = cs[i];
        if c == ' ' {
            push_char(&mut out, '-');
        } else {
            push_char(&mut out, c);
        }
        i = i + 1;
        assert(out@ =~= dashed(s@.take(i as int)));
    }
    assert(s@.take(cs@.len() as int) =~= s@);
    out
}

/// The instance and host names for a machine called `pc_name` hosting a
/// session in `mode`.  The instance name never exceeds 63 bytes; it ends
/// with the mode's suffix whenever that suffix fits; the host name is the
/// instance name with dashes for spaces, under `.local.`.
pub fn mdns_names_for(pc_name: &str, mode: &str) -> (r: (String, String))
    ensures
        r.0@ == mdns_instance_name(pc_name@, mode@),
        r.1@ == mdns_host_name(r.0@),
        utf8_len(r.0@) <= 63,
        utf8_len(mdns_suffix(mode@)) <= 63 ==> r.0@.len() >= mdns_suffix(mode@).len() && r.0@.skip(
            r.0@.len() - mdns_suffix(mode@).len(),
        ) == mdns_suffix(mode@),
        !r.1@.contains(' '),
        r.1@.len() >= 7 && r.1@.skip(r.1@.len() - 7) == ".local."@,
{
    let mut suffix = String::from_str(" (DropShare-");
    suffix.append(mode);
    suffix.append(")");
    let ghost sfx = mdns_suffix(mode@);
    assert(suffix@ == sfx);
    let suffix_len = suffix.as_str().as_bytes().len();
    assert(suffix_len == utf8_len(sfx));
    let budget: usize = if suffix_len >= MAX_INSTANCE_LEN {
        0
    } else {
        MAX_INSTANCE_LEN - suffix_len
    };
    let pc_chars = chars_of(pc_name);
    let mut instance = fitting_prefix_of(pc_chars.as_slice(), budget);
    proof {
        lemma_fitting_prefix(pc_name@, budget as int);
    }
    if instance.as_str().is_empty() && suffix_len > MAX_INSTANCE_LEN {
        let suffix_chars = chars_of(suffix.as_str());
        instance = fitting_prefix_of(suffix_chars.as_slice(), MAX_INSTANCE_LEN);
        proof {
            lemma_fitting_prefix(sfx, 63);
        }
    } else {
        let ghost prefix = instance@;
        instance.append(suffix.as_str());
        proof {
            lemma_utf8_concat(prefix, sfx);
            assert(instance@.skip(instance@.len() - sfx.len()) =~= sfx);
        }
    }
    let mut host = dashed_string(instance.as_str());
    host.append(".local.");
    proof {
        reveal_strlit(".local.");
        assert(host@.skip(host@.len() - 7) =~= ".local."@);
        assert(!".local."@.contains(' '));
        assert forall|k: int| 0 <= k < host@.len() implies host@[k] != ' ' by {
            if k >= dashed(instance@).len() {
                assert(host@[k] == ".local."@[k - dashed(instance@).len()]);
            }
        }
    }
    (instance, host)
}

/// `whoami::devicename`: the machine's pretty name, when the system gives
/// one.  Nothing is claimed of it.
#[verifier::external_body]
fn device_name() -> Option<String> {
    whoami::devicename().ok()
}

/// `whoami::hostname`: the machine's host name, when the system gives one.
/// Nothing is claimed of it.
#[verifier::external_body]
fn machine_host_name() -> Option<String> {
    whoami::hostname().ok()
}

/// The name a machine is announced under: its pretty name when the system
/// gives one, else its host name when it gives that, else `Host`.
pub open spec fn machine_name_of(device: Option<Seq<char>>, host: Option<Seq<char>>) -> Seq<char> {
    match device {
        Some(d) => d,
        None => match host {
            Some(h) => h,
            None => "Host"@,
        },
    }
}

/// The view of an optional string.
pub open spec fn opt_string_view(o: Option<String>) -> Option<Seq<char>> {
    match o {
        Some(s) => Some(s@),
        None => None,
    }
}

/// Picks the name a machine is announced under.
pub fn machine_name(device: Option<String>, host: Option<String>) -> (r: String)
    ensures
        r@ == machine_name_of(opt_string_view(device), opt_string_view(host)),
{
    match device {
        Some(d) => d,
        None => match host {
            Some(h) => h,
            None => String::from_str("Host"),
        },
    }
}

/// The instance and host names announced by this machine for a session in
/// `mode`: the machine's pretty name, else its host name (asked for only
/// when there is no pretty name), else `Host`, cut and suffixed as
/// `mdns_names_for` does.
pub fn get_mdns_names(mode: &str) -> (r: (String, String))
    ensures
        exists|device: Option<Seq<char>>, host: Option<Seq<char>>|
            r.0@ == mdns_instance_name(#[trigger] machine_name_of(device, host), mode@),
        r.1@ == mdns_host_name(r.0@),
        utf8_len(r.0@) <= 63,
        utf8_len(mdns_suffix(mode@)) <= 63 ==> r.0@.len() >= mdns_suffix(mode@).len() && r.0@.skip(
            r.0@.len() - mdns_suffix(mode@).len(),
        ) == mdns_suffix(mode@),
        !r.1@.contains(' '),
        r.1@.len() >= 7 && r.1@.skip(r.1@.len() - 7) == ".local."@,
{
    let device = device_name();
    let host = match device {
        Some(_) => None,
        None => machine_host_name(),
    };
    let ghost dv = opt_string_view(device);
    let ghost hv = opt_string_view(host);
    let pc_name = machine_name(device, host);
    assert(pc_name@ == machine_name_of(dv, hv));
    mdns_names_for(pc_name.as_str(), mode)
}

/// The TXT properties announced with a session: its mode, then the link
/// token and the encoded encryption key when the session has them.
pub open spec fn mdns_property_list(
    mode: Seq<char>,
    auth_token: Option<Seq<char>>,
    enc_key: Option<Seq<char>>,
) -> Seq<(Seq<char>, Seq<char>)> {
    let base = seq![("mode"@, mode)];
    let with_token = match auth_token {
        Some(t) => base.push(("token"@, t)),
        None => base,
    };
    match enc_key {
        Some(k) => with_token.push(("enc_key"@, k)),
        None => with_token,
    }
}

/// The views of a list of properties.
pub open spec fn property_views(props: Seq<(String, String)>) -> Seq<(Seq<char>, Seq<char>)> {
    props.map_values(|p: (String, String)| (p.0@, p.1@))
}

/// The TXT properties announced with a session in `mode`.
pub fn mdns_properties(mode: &str, auth_token: Option<&str>, enc_key: Option<&str>) -> (props: Vec<
    (String, String),
>)
    ensures
        property_views(props@) == mdns_property_list(
            mode@,
            match auth_token {
                Some(t) => Some(t@),
                None => None,
            },
            match enc_key {
                Some(k) => Some(k@),
                None => None,
            },
        ),
{
    let mut props: Vec<(String, String)> = Vec::new();
    props.push((String::from_str("mode"), mode.to_owned()));
    if let Some(t) = auth_token {
        props.push((String::from_str("token"), t.to_owned()));
    }
    if let Some(k) = enc_key {
        props.push((String::from_str("enc_key"), k.to_owned()));
    }
    assert(property_views(props@) =~= mdns_property_list(
        mode@,
        match auth_token {
            Some(t) => Some(t@),
            None => None,
        },
        match enc_key {
            Some(k) => Some(k@),
            None => None,
        },
    ));
    props
}

/// The full service name of an instance, under which it is withdrawn when
/// the session ends.
pub fn service_full_name(instance: &str) -> (r: String)
    ensures
        r@ == instance@ + "."@ + SERVICE_TYPE@,
{
    let mut r = instance.to_owned();
    r.append(".");
    r.append(SERVICE_TYPE);
    r
}

/// A text that fits in the budget is kept whole.
proof fn lemma_fitting_prefix_whole(s: Seq<char>, budget: int)
    requires
        utf8_len(s) <= budget,
    ensures
        fitting_prefix(s, budget) == s,
    decreases s.len(),
{
    if s.len() > 0 {
        assert(s =~= seq![s[0]] + s.drop_first());
        lemma_utf8_concat(seq![s[0]], s.drop_first());
        lemma_utf8_single(s[0]);
        lemma_fitting_prefix_whole(s.drop_first(), budget - utf8_width(s[0]));
    }
}

/// A machine name that leaves room for the mode's suffix within 63 bytes is
/// announced whole: the instance name is the machine name followed by
/// ` (DropShare-<mode>)`, and the host name is that with dashes for spaces
/// under `.local.`.
pub proof fn lemma_short_machine_name_kept_whole(pc_name: Seq<char>, mode: Seq<char>)
    requires
        utf8_len(pc_name) + utf8_len(mdns_suffix(mode)) <= 63,
    ensures
        mdns_instance_name(pc_name, mode) == pc_name + " (DropShare-"@ + mode + ")"@,
        mdns_host_name(mdns_instance_name(pc_name, mode)) == dashed(
            pc_name + " (DropShare-"@ + mode + ")"@,
        ) + ".local."@,
{
    lemma_fitting_prefix_whole(pc_name, 63 - utf8_len(mdns_suffix(mode)));
    assert(pc_name + mdns_suffix(mode) =~= pc_name + " (DropShare-"@ + mode + ")"@);
}

} // verus!
