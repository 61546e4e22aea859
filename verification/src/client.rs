//! Decisions of the joining side: how discovered hosts are listed, which
//! URL a session is reached at, what a host in a given mode is asked for,
//! and under which name a download is saved.

use vstd::prelude::*;
use crate::text::{
    chars_of, copy_range, decimal, decimal_string, find_from, find_sub, first_match, index_of,
    range_eq, string_from_chars, push_char,
};
use crate::crypto::{decode_key, decoded_key};
use crate::server::{disposition, download_header_list, final_component, lemma_download_offers_file_name, upload_target};
use crate::text::{lemma_first_match, lemma_index_of, lemma_last_index_of, matches_at};

verus! {

/// What follows an instance name in a full service name.
pub const SERVICE_NAME_TAIL: &'static str = "._dropshare._tcp.local.";

/// The name a download is saved under when the host names none.
pub const DEFAULT_DOWNLOAD_NAME: &'static str = "downloaded_file";

/// What a host's address is shown as when it has no IPv4 address.
pub const UNKNOWN_IP: &'static str = "Unknown IP";

/// `s` with every occurrence of the non-empty `pat` removed, occurrences
/// taken from left to right without overlap.
pub open spec fn remove_all(s: Seq<char>, pat: Seq<char>) -> Seq<char>
    decreases s.len(),
{
    if s.len() == 0 {
        s
    } else if pat.len() > 0 && pat.len() <= s.len() && s.take(pat.len() as int) == pat {
        remove_all(s.skip(pat.len() as int), pat)
    } else {
        seq![s[0]] + remove_all(s.drop_first(), pat)
    }
}

/// Removes every occurrence of `pat` from `s`.
pub fn remove_occurrences(s: &str, pat: &str) -> (r: String)
    requires
        pat@.len() > 0,
    ensures
        r@ == remove_all(s@, pat@),
{
    let cs = chars_of(s);
    let ps = chars_of(pat);
    let n = cs.len();
    let m = ps.len();
    let mut out = String::new();
    let mut i: usize = 0;
    assert(cs@.skip(0) =~= cs@);
    while i < n
        invariant
            n == cs@.len(),
            m == ps@.len(),
            m > 0,
            cs@ == s@,
            ps@ == pat@,
            i <= n,
            remove_all(s@, pat@) == out@ + remove_all(cs@.skip(i as int), pat@),
        decreases n - i,
    {
        let ghost rest = cs@.skip(i as int);
        if m <= n - i && range_eq(&cs, i, i + m, ps.as_slice()) {
            assert(rest.take(m as int) =~= cs@.subrange(i as int, i + m));
            assert(rest.skip(m as int) =~= cs@.skip(i + m));
            i = i + m;
        } else {
            proof {
                if m <= n - i {
                    assert(rest.take(m as int) =~= cs@.subrange(i as int, i + m));
                }
                assert(rest.drop_first() =~= cs@.skip(i + 1));
                assert(rest[0] == cs@[i as int]);
                assert(out@.push(cs@[i as int]) + remove_all(cs@.skip(i + 1), pat@) =~= out@ + (
                seq![rest[0]] + remove_all(rest.drop_first(), pat@)));
            }
            push_char(&mut out, cs[i]);
            i = i + 1;
        }
    }
    assert(cs@.skip(n as int) =~= Seq::<char>::empty());
    assert(out@ + Seq::<char>::empty() =~= out@);
    out
}

/// How a discovered host is listed: its service name without the service
/// type, then its IPv4 address in brackets.
pub open spec fn host_listing(fullname: Seq<char>, ipv4: Option<Seq<char>>) -> Seq<char> {
    remove_all(fullname, SERVICE_NAME_TAIL@) + " ["@ + match ipv4 {
        Some(ip) => ip,
        None => UNKNOWN_IP@,
    } + "]"@
}

/// The line that lists a discovered host in the selection menu.
pub fn host_label(fullname: &str, ipv4: Option<&str>) -> (r: String)
    ensures
        r@ == host_listing(
            fullname@,
            match ipv4 {
                Some(ip) => Some(ip@),
                None => None,
            },
        ),
{
    proof {
        reveal_strlit("._dropshare._tcp.local.");
    }
    let mut r = remove_occurrences(fullname, SERVICE_NAME_TAIL);
    r.append(" [");
    match ipv4 {
        Some(ip) => r.append(ip),
        None => r.append(UNKNOWN_IP),
    }
    r.append("]");
    r
}

/// The link to a session at `ip:port` and `path`, with the link token when
/// links carry one.
pub open spec fn session_link(ip: Seq<char>, port: u16, path: Seq<char>, token: Option<Seq<char>>) -> Seq<
    char,
> {
    let base = "http://"@ + ip + ":"@ + decimal(port as nat) + path;
    match token {
        Some(t) => base + "?token="@ + t,
        None => base,
    }
}

/// The link to a session at `ip:port` and `path`.
pub fn host_link(ip: &str, port: u16, path: &str, token: Option<&str>) -> (r: String)
    ensures
        r@ == session_link(
            ip@,
            port,
            path@,
            match token {
                Some(t) => Some(t@),
                None => None,
            },
        ),
{
    let mut r = String::from_str("http://");
    r.append(ip);
    r.append(":");
    let p = decimal_string(port as u128);
    r.append(p.as_str());
    r.append(path);
    if let Some(t) = token {
        r.append("?token=");
        r.append(t);
    }
    r
}

/// The name a download is saved under, read from its `Content-Disposition`
/// value: what stands between `filename="` and the next `"`, else the
/// default name.
pub open spec fn disposition_filename(cd: Option<Seq<char>>) -> Seq<char> {
    match cd {
        None => DEFAULT_DOWNLOAD_NAME@,
        Some(v) => {
            let i = first_match(v, "filename=\""@);
            if i < 0 {
                DEFAULT_DOWNLOAD_NAME@
            } else {
                let rest = v.skip(i + 10);
                let j = index_of(rest, '"');
                if j < 0 {
                    DEFAULT_DOWNLOAD_NAME@
                } else {
                    rest.take(j)
                }
            }
        },
    }
}

/// The name a download is saved under, given its `Content-Disposition`
/// value (none when the response has no readable one).
pub fn attachment_filename(content_disposition: Option<&str>) -> (r: String)
    ensures
        r@ == disposition_filename(
            match content_disposition {
                Some(v) => Some(v@),
                None => None,
            },
        ),
{
    let marker = ['f', 'i', 'l', 'e', 'n', 'a', 'm', 'e', '=', '"'];
    proof {
        reveal_strlit("filename=\"");
        assert(marker@ =~= "filename=\""@);
    }
    match content_disposition {
        None => String::from_str(DEFAULT_DOWNLOAD_NAME),
        Some(v) => {
            let cs = chars_of(v);
            assert(cs@.skip(0) =~= cs@);
            match find_sub(&cs, &marker, 0) {
                None => String::from_str(DEFAULT_DOWNLOAD_NAME),
                Some(i) => {
                    let start = i + 10;
                    let end = find_from(&cs, '"', start);
                    if end == cs.len() {
                        String::from_str(DEFAULT_DOWNLOAD_NAME)
                    } else {
                        let name = copy_range(&cs, start, end);
                        assert(name@ =~= v@.skip(start as int).take(end - start));
                        string_from_chars(name.as_slice())
                    }
                },
            }
        },
    }
}

/// What joining a host in a given mode comes to.
#[derive(Debug, Clone, Copy, PartialEq, Eq, Structural)]
pub enum JoinAction {
    /// The host sends: download its file.
    Download,
    /// The host receives and a file was given: upload it.
    Upload,
    /// The host receives but no file was given.
    MissingFile,
    /// The host announced a mode that is neither: nothing to do.
    Nothing,
}

/// What joining a host in `mode` comes to, with or without a file to send.
pub open spec fn join_plan(mode: Seq<char>, has_file: bool) -> JoinAction {
    if mode == "send"@ {
        JoinAction::Download
    } else if mode == "receive"@ {
        if has_file {
            JoinAction::Upload
        } else {
            JoinAction::MissingFile
        }
    } else {
        JoinAction::Nothing
    }
}

/// Decides what joining a host in `mode` comes to.
pub fn plan_join(mode: &str, has_file: bool) -> (a: JoinAction)
    ensures
        a == join_plan(mode@, has_file),
{
    let cs = chars_of(mode);
    let send = ['s', 'e', 'n', 'd'];
    let receive = ['r', 'e', 'c', 'e', 'i', 'v', 'e'];
    proof {
        reveal_strlit("send");
        reveal_strlit("receive");
        assert(send@ =~= "send"@);
        assert(receive@ =~= "receive"@);
        assert(cs@.subrange(0, cs@.len() as int) =~= cs@);
    }
    if range_eq(&cs, 0, cs.len(), &send) {
        JoinAction::Download
    } else if range_eq(&cs, 0, cs.len(), &receive) {
        if has_file {
            JoinAction::Upload
        } else {
            JoinAction::MissingFile
        }
    } else {
        JoinAction::Nothing
    }
}

/// The name under which an encrypted upload is sent: the file's name with
/// `.enc` appended, which tells the host to decrypt it.
pub fn encrypted_upload_name(name: &str) -> (r: String)
    ensures
        r@ == name@ + ".enc"@,
{
    let mut r = name.to_owned();
    r.append(".enc");
    r
}

/// The key a joining peer uses: the one the host announced, when it
/// announced one that decodes to 32 bytes.
pub fn advertised_key(encoded: Option<&str>) -> (r: Option<[u8; 32]>)
    ensures
        match encoded {
            None => r is None,
            Some(e) => match decoded_key(e@) {
                Ok(k) => r matches Some(key) && key@ == k,
                Err(_) => r is None,
            },
        },
{
    match encoded {
        None => None,
        Some(e) => match decode_key(e) {
            Ok(k) => Some(k),
            Err(_) => None,
        },
    }
}

/// A file name without separators, sent encrypted under its name with
/// `.enc` appended, is stored by a host holding the key under its own name,
/// and decrypted.
pub proof fn lemma_encrypted_upload_name_restored(name: Seq<char>)
    requires
        !name.contains('/'),
    ensures
        upload_target(Some(name + ".enc"@), true) == (name, true),
{
    reveal_strlit(".enc");
    let f = name + ".enc"@;
    assert forall|k: int| -1 < k < f.len() implies f[k] != '/' by {
        if k < name.len() {
            assert(f[k] == name[k]);
        } else {
            assert(f[k] == ".enc"@[k - name.len()]);
        }
    }
    lemma_last_index_of(f, '/', -1);
    assert(f.subrange(0, f.len() as int) =~= f);
    assert(f.len() >= 4);
    assert(f != seq!['.']);
    assert(f != seq!['.', '.']);
    assert(final_component(f) == Some(f));
    assert(f.skip(f.len() - 4) =~= seq!['.', 'e', 'n', 'c']);
    assert(f.take(f.len() - 4) =~= name);
}

/// The name a host offers a download under, when it holds no quote, is
/// the name a joining peer saves it under.
pub proof fn lemma_disposition_filename_roundtrip(name: Seq<char>)
    requires
        !name.contains('"'),
    ensures
        disposition_filename(Some(disposition(name))) == name,
{
    reveal_strlit("attachment; filename=\"");
    reveal_strlit("filename=\"");
    reveal_strlit("\"");
    let d = disposition(name);
    let pat = "filename=\""@;
    assert(d.len() == 22 + name.len() + 1);
    assert forall|k: int| 0 <= k < 12 implies !#[trigger] matches_at(d, pat, k) by {
        if matches_at(d, pat, k) {
            assert(d.subrange(k, k + pat.len())[0] == d[k]);
            assert(d[k] == "attachment; filename=\""@[k]);
        }
    }
    assert(d.subrange(12, 22) =~= pat);
    lemma_first_match(d, pat, 12);
    let rest = d.skip(22);
    assert(rest =~= name + "\""@);
    assert forall|k: int| 0 <= k < name.len() implies rest[k] != '"' by {
        assert(rest[k] == name[k]);
    }
    lemma_index_of(rest, '"', name.len() as int);
    assert(rest.take(name.len() as int) =~= name);
}

/// A joining peer saves a download, encrypted or not, under the name the
/// host offers it under, when that name holds no quote.
pub proof fn lemma_download_saved_under_offered_name(name: Seq<char>, len: u64, encrypted: bool)
    requires
        !name.contains('"'),
    ensures
        exists|i: int|
            0 <= i < download_header_list(name, len, encrypted).len() && (#[trigger] download_header_list(
                name,
                len,
                encrypted,
            )[i]).0 == "content-disposition"@ && disposition_filename(
                Some(download_header_list(name, len, encrypted)[i].1),
            ) == name,
{
    lemma_download_offers_file_name(name, len, encrypted);
    lemma_disposition_filename_roundtrip(name);
    let l = download_header_list(name, len, encrypted);
    let i = choose|i: int|
        0 <= i < l.len() && #[trigger] l[i] == ("content-disposition"@, "attachment; filename=\""@
            + name + "\""@);
    assert(l[i].1 == disposition(name));
}

} // verus!
