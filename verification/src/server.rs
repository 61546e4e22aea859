//! Decisions of the file server: names of uploaded files, link tokens, page
//! bodies and response headers.

use vstd::prelude::*;
use crate::text::{
    chars_of, copy_range, find_from, find_last_before, index_of, last_index_of,
    lemma_index_of_bounds, lemma_last_index_of_bounds, matches_at, range_eq, string_from_chars,
};
use crate::utils::with_optional_token;
use crate::crypto::{spec_encrypted_size, encrypted_size};
use crate::text::{decimal, decimal_string};

verus! {

/// The last component of a `/`-separated path, as `Path::file_name` reads
/// it: empty and `.` components are skipped, and a final `..` has no name.
pub open spec fn final_component(s: Seq<char>) -> Option<Seq<char>>
    decreases s.len(),
{
    let j = last_index_of(s, '/');
    let seg = s.subrange(j + 1, s.len() as int);
    if seg.len() == 0 || seg == seq!['.'] {
        if j < 0 {
            None
        } else {
            proof {
                lemma_last_index_of_bounds(s, '/');
            }
            final_component(s.take(j))
        }
    } else if seg == seq!['.', '.'] {
        None
    } else {
        Some(seg)
    }
}

/// The name under which an upload called `s` is stored.
pub open spec fn sanitized_name(s: Seq<char>) -> Seq<char> {
    match final_component(s) {
        Some(n) => n,
        None => seq!['f', 'i', 'l', 'e'],
    }
}

/// A final component is a plain, non-empty name without separators.
proof fn lemma_final_component(s: Seq<char>)
    ensures
        final_component(s) matches Some(n) ==> {
            &&& n.len() > 0
            &&& n != seq!['.']
            &&& n != seq!['.', '.']
            &&& !n.contains('/')
        },
    decreases s.len(),
{
    lemma_last_index_of_bounds(s, '/');
    let j = last_index_of(s, '/');
    let seg = s.subrange(j + 1, s.len() as int);
    if seg.len() == 0 || seg == seq!['.'] {
        if j >= 0 {
            lemma_final_component(s.take(j));
        }
    } else if seg != seq!['.', '.'] {
        assert forall|k: int| 0 <= k < seg.len() implies seg[k] != '/' by {
            assert(seg[k] == s[j + 1 + k]);
        }
    }
}

/// The last component of the path `name`, when it has one.
pub fn final_component_of(name: &str) -> (r: Option<String>)
    ensures
        match final_component(name@) {
            Some(n) => (r matches Some(s) && s@ == n),
            None => r is None,
        },
{
    let cs = chars_of(name);
    let dot = ['.'];
    let dot_dot = ['.', '.'];
    assert(dot@ =~= seq!['.']);
    assert(dot_dot@ =~= seq!['.', '.']);
    let mut end = cs.len();
    assert(cs@.take(end as int) =~= cs@);
    loop
        invariant
            end <= cs@.len(),
            cs@ == name@,
            dot@ == seq!['.'],
            dot_dot@ == seq!['.', '.'],
            final_component(cs@) == final_component(cs@.take(end as int)),
        decreases end,
    {
        let ghost s = cs@.take(end as int);
        let j = find_last_before(&cs, '/', end);
        let start = match j {
            Some(i) => i + 1,
            None => 0,
        };
        proof {
            lemma_last_index_of_bounds(s, '/');
            assert(cs@.subrange(start as int, end as int) =~= s.subrange(
                last_index_of(s, '/') + 1,
                s.len() as int,
            ));
        }
        if start == end || range_eq(&cs, start, end, &dot) {
            match j {
                None => {
                    return None;
                },
                Some(i) => {
                    assert(s.take(i as int) =~= cs@.take(i as int));
                    end = i;
                },
            }
        } else if range_eq(&cs, start, end, &dot_dot) {
            return None;
        } else {
            let part = copy_range(&cs, start, end);
            return Some(string_from_chars(part.as_slice()));
        }
    }
}

/// Reduces an uploaded file's name to its last path component, falling back
/// to `file` when there is none, so that an upload cannot leave the upload
/// directory.
pub fn sanitize_filename(name: &str) -> (r: String)
    ensures
        r@ == sanitized_name(name@),
        r@.len() > 0,
        r@ != seq!['.'],
        r@ != seq!['.', '.'],
        !r@.contains('/'),
{
    proof {
        lemma_final_component(name@);
        reveal_strlit("file");
    }
    match final_component_of(name) {
        Some(n) => n,
        None => String::from_str("file"),
    }
}

/// The upload page up to the form.
pub const UPLOAD_PAGE_HEAD: &'static str = "<html lang=\"en\">
    <head>
        <meta charset=\"UTF-8\">
        <meta name=\"viewport\" content=\"width=device-width, initial-scale=1.0\">
        <title>File Upload</title>
        <style>
            body { font-family: 'Segoe UI', Tahoma, Geneva, Verdana, sans-serif; background-color: #f3f4f6; display: flex; justify-content: center; align-items: center; height: 100vh; margin: 0; }
            .upload-container { background-color: #ffffff; padding: 40px; border-radius: 12px; box-shadow: 0 8px 20px rgba(0, 0, 0, 0.08); text-align: center; width: 100%; max-width: 350px; }
            .upload-container h2 { margin-top: 0; color: #1f2937; font-size: 1.5rem; margin-bottom: 24px; }
            input[type=\"file\"] { display: block; width: 100%; margin-bottom: 24px; padding: 16px 10px; border: 2px dashed #d1d5db; border-radius: 8px; background-color: #f9fafb; color: #4b5563; box-sizing: border-box; cursor: pointer; transition: border-color 0.3s ease; }
            input[type=\"file\"]:hover { border-color: #3b82f6; }
            input[type=\"file\"]::file-selector-button { background-color: #e5e7eb; border: none; padding: 8px 16px; border-radius: 6px; color: #374151; cursor: pointer; margin-right: 12px; font-weight: 500; transition: background-color 0.3s ease; }
            input[type=\"file\"]::file-selector-button:hover { background-color: #d1d5db; }
            button[type=\"submit\"] { background-color: #3b82f6; color: white; border: none; padding: 12px 24px; font-size: 16px; font-weight: 600; border-radius: 8px; cursor: pointer; width: 100%; transition: background-color 0.3s ease, transform 0.1s ease; }
            button[type=\"submit\"]:hover { background-color: #2563eb; }
            button[type=\"submit\"]:active { transform: scale(0.98); }
        </style>
    </head>
    <body>
        <div class=\"upload-container\">
            <h2>Upload Files</h2>
            ";

/// The upload page after the form's `action` attribute.
pub const UPLOAD_PAGE_TAIL: &'static str = " method=\"post\" enctype=\"multipart/form-data\">
                <input type=\"file\" name=\"uploadedFile\" required multiple>
                <button type=\"submit\">Upload</button>
            </form>
        </div>
    </body>
    </html>";

/// The page shown once all uploaded files are stored.
pub const UPLOAD_COMPLETE_PAGE: &'static str = "<html lang=\"en\">
    <head>
      <meta charset=\"UTF-8\" />
      <meta name=\"viewport\" content=\"width=device-width, initial-scale=1\" />
      <title>Upload Status</title>
      <style>body { font-family: sans-serif; margin: 3rem; }</style>
    </head>
    <body>
      <h1>upload complete</h1>
    </body>
    </html>";

/// The body of the answer to a request without the right link token.
pub const UNAUTHORIZED_BODY: &'static str = "Unauthorized: invalid or missing token";

/// The body of the answer to a download of a file that is gone.
pub const NOT_FOUND_BODY: &'static str = "File not found";

/// Whether a `key=value` pair of a query (split at its first `=`) is
/// `token=<expected>`.
pub open spec fn pair_is_token(pair: Seq<char>, expected: Seq<char>) -> bool {
    let i = index_of(pair, '=');
    &&& i >= 0
    &&& pair.take(i) == seq!['t', 'o', 'k', 'e', 'n']
    &&& pair.skip(i + 1) == expected
}

/// Whether any `&`-separated pair of `query` is `token=<expected>`.
pub open spec fn query_has_token(query: Seq<char>, expected: Seq<char>) -> bool
    decreases query.len(),
{
    let i = index_of(query, '&');
    if i < 0 {
        pair_is_token(query, expected)
    } else {
        proof {
            lemma_index_of_bounds(query, '&');
        }
        pair_is_token(query.take(i), expected) || query_has_token(query.skip(i + 1), expected)
    }
}

/// Whether a request is let through: always when links carry no token,
/// otherwise when its query holds `token=<expected>`.
pub open spec fn token_accepted(expected: Option<Seq<char>>, query: Option<Seq<char>>) -> bool {
    match expected {
        None => true,
        Some(t) => match query {
            Some(q) => query_has_token(q, t),
            None => query_has_token(Seq::empty(), t),
        },
    }
}

/// Whether the pair `q[a..b]` is `token=<expected>`.
fn pair_matches(q: &Vec<char>, a: usize, b: usize, expected: &Vec<char>) -> (r: bool)
    requires
        a <= b <= q@.len(),
    ensures
        r == pair_is_token(q@.subrange(a as int, b as int), expected@),
{
    let pair = copy_range(q, a, b);
    let eq = find_from(&pair, '=', 0);
    assert(pair@.skip(0) =~= pair@);
    if eq == pair.len() {
        return false;
    }
    let key = ['t', 'o', 'k', 'e', 'n'];
    assert(key@ =~= seq!['t', 'o', 'k', 'e', 'n']);
    let key_ok = range_eq(&pair, 0, eq, &key);
    assert(pair@.subrange(0, eq as int) =~= pair@.take(eq as int));
    let value_ok = range_eq(&pair, eq + 1, pair.len(), expected.as_slice());
    assert(pair@.subrange(eq + 1, pair@.len() as int) =~= pair@.skip(eq + 1));
    key_ok && value_ok
}

/// Whether some pair of `query` is `token=<expected>`.
pub fn query_contains_token(query: &str, expected: &str) -> (r: bool)
    ensures
        r == query_has_token(query@, expected@),
{
    let q = chars_of(query);
    let e = chars_of(expected);
    let mut start: usize = 0;
    assert(q@.skip(0) =~= q@);
    loop
        invariant
            start <= q@.len(),
            q@ == query@,
            e@ == expected@,
            query_has_token(q@, e@) == query_has_token(q@.skip(start as int), e@),
        decreases q@.len() - start,
    {
        let ghost rest = q@.skip(start as int);
        let amp = find_from(&q, '&', start);
        let matched = pair_matches(&q, start, amp, &e);
        if amp == q.len() {
            assert(q@.subrange(start as int, amp as int) =~= rest);
            return matched;
        }
        assert(q@.subrange(start as int, amp as int) =~= rest.take(amp - start));
        if matched {
            return true;
        }
        assert(rest.skip(amp - start + 1) =~= q@.skip(amp + 1));
        start = amp + 1;
    }
}

/// Decides whether a request passes the link-token check: `expected` is
/// the token that links carry (none when tokens are disabled) and `query`
/// the request's query string.
pub fn validate_token(expected: Option<&str>, query: Option<&str>) -> (r: bool)
    ensures
        r == token_accepted(
            match expected {
                Some(t) => Some(t@),
                None => None,
            },
            match query {
                Some(q) => Some(q@),
                None => None,
            },
        ),
{
    match expected {
        None => true,
        Some(t) => match query {
            Some(q) => query_contains_token(q, t),
            None => {
                let r = query_contains_token("", t);
                proof {
                    reveal_strlit("");
                    assert(""@ =~= Seq::<char>::empty());
                }
                r
            },
        },
    }
}

/// The upload page, whose form posts to `action`.
pub open spec fn upload_page(action: Seq<char>) -> Seq<char> {
    UPLOAD_PAGE_HEAD@ + "<form action=\""@ + action + "\""@ + UPLOAD_PAGE_TAIL@
}

/// The upload page; its form posts to `/upload`, with the link token when
/// links carry one.
pub fn get_upload(auth_token: Option<&str>) -> (html: String)
    ensures
        html@ == upload_page(
            "/upload"@ + match auth_token {
                Some(t) => "?token="@ + t@,
                None => Seq::<char>::empty(),
            },
        ),
{
    let action = with_optional_token("/upload", auth_token);
    let mut html = String::from_str(UPLOAD_PAGE_HEAD);
    html.append("<form action=\"");
    html.append(action.as_str());
    html.append("\"");
    html.append(UPLOAD_PAGE_TAIL);
    proof {
        match auth_token {
            Some(t) => {
                assert("/upload"@ + "?token="@ + t@ =~= "/upload"@ + ("?token="@ + t@));
            },
            None => {
                assert("/upload"@ + Seq::<char>::empty() =~= "/upload"@);
            },
        }
    }
    html
}

/// The name under which an upload is stored, and whether its content
/// arrives encrypted.
pub open spec fn upload_target(field_name: Option<Seq<char>>, has_key: bool) -> (Seq<char>, bool) {
    let n = sanitized_name(
        match field_name {
            Some(f) => f,
            None => seq!['f', 'i', 'l', 'e'],
        },
    );
    if has_key && n.len() >= 4 && n.skip(n.len() - 4) == seq!['.', 'e', 'n', 'c'] {
        (n.take(n.len() - 4), true)
    } else {
        (n, false)
    }
}

/// Names an upload: its sanitized file name (`file` when the form gives
/// none), less a `.enc` suffix when the server holds a key, in which case
/// the content arrives encrypted.
pub fn upload_file_name(field_name: Option<&str>, has_key: bool) -> (r: (String, bool))
    ensures
        (r.0@, r.1) == upload_target(
            match field_name {
                Some(f) => Some(f@),
                None => None,
            },
            has_key,
        ),
{
    let raw = match field_name {
        Some(f) => f,
        None => "file",
    };
    proof {
        reveal_strlit("file");
        assert("file"@ =~= seq!['f', 'i', 'l', 'e']);
    }
    let name = sanitize_filename(raw);
    let cs = chars_of(name.as_str());
    let n = cs.len();
    let suffix = ['.', 'e', 'n', 'c'];
    assert(suffix@ =~= seq!['.', 'e', 'n', 'c']);
    if has_key && n >= 4 && range_eq(&cs, n - 4, n, &suffix) {
        assert(cs@.subrange(n - 4, n as int) =~= cs@.skip(n - 4));
        let stem = copy_range(&cs, 0, n - 4);
        assert(stem@ =~= cs@.take(n - 4));
        (string_from_chars(stem.as_slice()), true)
    } else {
        proof {
            if has_key && n >= 4 {
                assert(cs@.subrange(n - 4, n as int) =~= cs@.skip(n - 4));
            }
        }
        (name, false)
    }
}

/// Whether a download is sent encrypted: the server must hold a key and the
/// client must ask for encryption.
pub fn download_encrypted(has_key: bool, requested: bool) -> (r: bool)
    ensures
        r == (has_key && requested),
{
    has_key && requested
}

/// The name a download is offered under: the file's last path component,
/// or `download` when it has none.
pub open spec fn download_name(path: Seq<char>) -> Seq<char> {
    match final_component(path) {
        Some(n) => n,
        None => seq!['d', 'o', 'w', 'n', 'l', 'o', 'a', 'd'],
    }
}

/// The name a download of the file at `path` is offered under.
pub fn download_file_name(path: &str) -> (r: String)
    ensures
        r@ == download_name(path@),
{
    proof {
        reveal_strlit("download");
    }
    match final_component_of(path) {
        Some(n) => n,
        None => String::from_str("download"),
    }
}


/// The `Content-Disposition` value that offers a download as `name`.
pub open spec fn disposition(name: Seq<char>) -> Seq<char> {
    "attachment; filename=\""@ + name + "\""@
}

/// The headers of a download response for a file offered as `name`, of
/// `len` bytes, sent encrypted or not: plain downloads state their length
/// only when it is not zero; encrypted ones state the length of the
/// encrypted stream and mark themselves encrypted.
pub open spec fn download_header_list(name: Seq<char>, len: u64, encrypted: bool) -> Seq<
    (Seq<char>, Seq<char>),
> {
    let content_type = ("content-type"@, "application/octet-stream"@);
    let content_disposition = ("content-disposition"@, disposition(name));
    if encrypted {
        seq![
            content_type,
            ("content-length"@, decimal(spec_encrypted_size(len as nat))),
            content_disposition,
            ("X-Drop-Encrypted"@, "true"@),
        ]
    } else if len > 0 {
        seq![content_type, content_disposition, ("content-length"@, decimal(len as nat))]
    } else {
        seq![content_type, content_disposition]
    }
}

/// The views of a list of headers.
pub open spec fn header_views(headers: Seq<(String, String)>) -> Seq<(Seq<char>, Seq<char>)> {
    headers.map_values(|h: (String, String)| (h.0@, h.1@))
}

/// The headers of a download response.
pub fn download_headers(name: &str, len: u64, encrypted: bool) -> (headers: Vec<(String, String)>)
    requires
        encrypted ==> spec_encrypted_size(len as nat) <= u64::MAX,
    ensures
        header_views(headers@) == download_header_list(name@, len, encrypted),
{
    let mut disposition = String::from_str("attachment; filename=\"");
    disposition.append(name);
    disposition.append("\"");
    let mut headers: Vec<(String, String)> = Vec::new();
    headers.push(
        (String::from_str("content-type"), String::from_str("application/octet-stream")),
    );
    if encrypted {
        let size = encrypted_size(len);
        headers.push((String::from_str("content-length"), decimal_string(size as u128)));
        headers.push((String::from_str("content-disposition"), disposition));
        headers.push((String::from_str("X-Drop-Encrypted"), String::from_str("true")));
    } else {
        headers.push((String::from_str("content-disposition"), disposition));
        if len > 0 {
            headers.push((String::from_str("content-length"), decimal_string(len as u128)));
        }
    }
    assert(header_views(headers@) =~= download_header_list(name@, len, encrypted));
    headers
}

/// An error met while serving a request; it is answered with status 500.
pub struct AppError {
    message: String,
}

impl AppError {
    /// The error's description.
    pub closed spec fn message(&self) -> Seq<char> {
        self.message@
    }

    /// An error described by `message`.
    pub fn new(message: &str) -> (e: Self)
        ensures
            e.message() == message@,
    {
        AppError { message: String::from_str(message) }
    }

    /// The error's description.
    pub fn text(&self) -> (s: &str)
        ensures
            s@ == self.message(),
    {
        self.message.as_str()
    }

    /// The status code of the answer.
    pub fn status(&self) -> (code: u16)
        ensures
            code == 500,
    {
        500
    }

    /// The body of the answer.
    pub fn body(&self) -> (s: String)
        ensures
            s@ == "Error: "@ + self.message(),
    {
        let mut s = String::from_str("Error: ");
        s.append(self.message.as_str());
        s
    }
}

/// The most bytes an upload may have, for a limit of `max_size_mb`
/// megabytes (of 1024 * 1024 bytes); none when there is no limit.
pub fn upload_limit_bytes(max_size_mb: Option<usize>) -> (r: Option<usize>)
    requires
        max_size_mb matches Some(mb) ==> mb * 1024 * 1024 <= usize::MAX,
    ensures
        r == match max_size_mb {
            Some(mb) => Some((mb * 1024 * 1024) as usize),
            None => None::<usize>,
        },
{
    match max_size_mb {
        Some(mb) => Some(mb * 1024 * 1024),
        None => None,
    }
}

/// A link token that holds no `&` is accepted in the query `token=<t>`
/// that the session's own links end with: a link printed by a session
/// passes that session's token check.
pub proof fn lemma_link_token_accepted(t: Seq<char>)
    requires
        !t.contains('&'),
    ensures
        token_accepted(Some(t), Some("token="@ + t)),
{
    reveal_strlit("token=");
    let q = "token="@ + t;
    assert forall|k: int| 0 <= k < q.len() implies q[k] != '&' by {
        if k >= 6 {
            assert(q[k] == t[k - 6]);
        }
    }
    lemma_index_of_bounds(q, '&');
    if index_of(q, '&') >= 0 {
        assert(q[index_of(q, '&')] == '&');
    }
    lemma_index_of_bounds(q, '=');
    crate::text::lemma_index_of(q, '=', 5);
    assert(q.take(5) =~= seq!['t', 'o', 'k', 'e', 'n']);
    assert(q.skip(6) =~= t);
}

/// What can go wrong while storing one uploaded file.
#[derive(Debug, Clone, Copy, PartialEq, Eq, Structural)]
pub enum UploadFailure {
    /// The file could not be created on disk.
    CreateFile,
    /// Writing to the file failed.
    Write,
    /// An intermediate chunk of an encrypted upload did not open.
    Decryption,
    /// The end of an encrypted upload was refused: its final chunk is
    /// missing or does not open.
    FinalDecryption,
    /// The connection broke while the file arrived.
    Network,
}

/// What is done about a failed upload: the notice shown on the file's
/// progress line, whether the partly written file is removed, the error
/// answered to the request, and whether the session ends.
pub struct UploadFailureOutcome {
    pub notice: String,
    pub remove_partial_file: bool,
    pub error: AppError,
    pub cancel_session: bool,
}

/// The notice shown for a failed upload, with the cause's description.
pub open spec fn failure_notice(kind: UploadFailure, detail: Seq<char>) -> Seq<char> {
    match kind {
        UploadFailure::CreateFile => "[ ERROR ] : Could not create file on disk: "@ + detail,
        UploadFailure::Write => "[ ERROR ] : Failed to write to disk: "@ + detail,
        UploadFailure::Decryption => "[ ERROR ] : Decryption failed: "@ + detail,
        UploadFailure::FinalDecryption => "[ ERROR ] : Final decryption failed: "@ + detail,
        UploadFailure::Network => "[ ERROR ] : Network connection lost: "@ + detail,
    }
}

/// The error answered for a failed upload.
pub open spec fn failure_error(kind: UploadFailure, detail: Seq<char>) -> Seq<char> {
    match kind {
        UploadFailure::CreateFile => "Disk error: "@ + detail,
        _ => "Upload interrupted"@,
    }
}

/// Decides what is done when storing an uploaded file fails: the notice,
/// removal of the partly written file (there is none when it could not be
/// created), the error answered, and the session kept open so that the
/// upload can be tried again.
pub fn upload_failure(kind: UploadFailure, detail: &str) -> (r: UploadFailureOutcome)
    ensures
        r.notice@ == failure_notice(kind, detail@),
        r.remove_partial_file == (kind != UploadFailure::CreateFile),
        r.error.message() == failure_error(kind, detail@),
        !r.cancel_session,
{
    let prefix = match kind {
        UploadFailure::CreateFile => "[ ERROR ] : Could not create file on disk: ",
        UploadFailure::Write => "[ ERROR ] : Failed to write to disk: ",
        UploadFailure::Decryption => "[ ERROR ] : Decryption failed: ",
        UploadFailure::FinalDecryption => "[ ERROR ] : Final decryption failed: ",
        UploadFailure::Network => "[ ERROR ] : Network connection lost: ",
    };
    let mut notice = String::from_str(prefix);
    notice.append(detail);
    let error = match kind {
        UploadFailure::CreateFile => {
            let mut m = String::from_str("Disk error: ");
            m.append(detail);
            AppError::new(m.as_str())
        },
        _ => AppError::new("Upload interrupted"),
    };
    UploadFailureOutcome {
        notice,
        remove_partial_file: match kind {
            UploadFailure::CreateFile => false,
            _ => true,
        },
        error,
        cancel_session: false,
    }
}

/// The notice shown once an uploaded file is stored.
pub fn upload_stored_notice(file_name: &str, decrypted: bool) -> (s: String)
    ensures
        s@ == "\""@ + file_name@ + (if decrypted {
            "\" received and decrypted successfully"@
        } else {
            "\" received successfully"@
        }),
{
    let mut s = String::from_str("\"");
    s.append(file_name);
    if decrypted {
        s.append("\" received and decrypted successfully");
    } else {
        s.append("\" received successfully");
    }
    s
}

/// The answer to a request that fails the link-token check: status 401
/// with `UNAUTHORIZED_BODY`; none when the request passes on to its handler.
pub fn token_gate(expected: Option<&str>, query: Option<&str>) -> (r: Option<(u16, &'static str)>)
    ensures
        r is None <==> token_accepted(
            match expected {
                Some(t) => Some(t@),
                None => None,
            },
            match query {
                Some(q) => Some(q@),
                None => None,
            },
        ),
        r matches Some((status, body)) ==> status == 401 && body@ == UNAUTHORIZED_BODY@,
{
    if validate_token(expected, query) {
        None
    } else {
        Some((401, UNAUTHORIZED_BODY))
    }
}

/// Whether `s[i..j]` is one whole `/`-separated component of `s`.
pub open spec fn is_component(s: Seq<char>, i: int, j: int) -> bool {
    &&& 0 <= i <= j <= s.len()
    &&& (i == 0 || s[i - 1] == '/')
    &&& (j == s.len() || s[j] == '/')
    &&& forall|k: int| i <= k < j ==> s[k] != '/'
}

/// The last component of a path is one of its components.
proof fn lemma_final_component_is_component(s: Seq<char>)
    ensures
        final_component(s) matches Some(n) ==> exists|i: int, j: int|
            #[trigger] is_component(s, i, j) && s.subrange(i, j) == n,
    decreases s.len(),
{
    lemma_last_index_of_bounds(s, '/');
    let j0 = last_index_of(s, '/');
    let seg = s.subrange(j0 + 1, s.len() as int);
    if seg.len() == 0 || seg == seq!['.'] {
        if j0 >= 0 {
            let t = s.take(j0);
            lemma_final_component_is_component(t);
            if final_component(t) is Some {
                let n = final_component(t)->0;
                let (i, j) = choose|i: int, j: int| #[trigger]
                    is_component(t, i, j) && t.subrange(i, j) == n;
                assert(s[j0] == '/');
                if j < j0 {
                    assert(t[j] == s[j]);
                }
                if i > 0 {
                    assert(t[i - 1] == s[i - 1]);
                }
                assert forall|k: int| i <= k < j implies s[k] != '/' by {
                    assert(t[k] == s[k]);
                }
                assert(is_component(s, i, j));
                assert(s.subrange(i, j) =~= t.subrange(i, j));
            }
        }
    } else if seg != seq!['.', '.'] {
        assert(is_component(s, j0 + 1, s.len() as int));
    }
}

/// An upload is stored under one whole component of the name it came with,
/// or under `file`: joined to a directory, the stored name never leads out
/// of it.
pub proof fn lemma_sanitized_name_is_component(name: Seq<char>)
    ensures
        sanitized_name(name) == seq!['f', 'i', 'l', 'e'] || exists|i: int, j: int|
            #[trigger] is_component(name, i, j) && name.subrange(i, j) == sanitized_name(name),
{
    lemma_final_component_is_component(name);
}

/// The upload page's form posts the chosen files to `action` as
/// `multipart/form-data`, from a file input named `uploadedFile`.
pub proof fn lemma_upload_form_posts_files(action: Seq<char>)
    ensures
        exists|i: int|
            #[trigger] matches_at(
                upload_page(action),
                "<form action=\""@ + action
                    + "\" method=\"post\" enctype=\"multipart/form-data\">"@,
                i,
            ),
        exists|i: int|
            #[trigger] matches_at(
                upload_page(action),
                "<input type=\"file\" name=\"uploadedFile\" required multiple>"@,
                i,
            ),
{
    reveal_strlit(" method=\"post\" enctype=\"multipart/form-data\">
                <input type=\"file\" name=\"uploadedFile\" required multiple>
                <button type=\"submit\">Upload</button>
            </form>
        </div>
    </body>
    </html>");
    reveal_strlit("<form action=\"");
    reveal_strlit("\"");
    reveal_strlit("\" method=\"post\" enctype=\"multipart/form-data\">");
    reveal_strlit("<input type=\"file\" name=\"uploadedFile\" required multiple>");
    let page = upload_page(action);
    let h = UPLOAD_PAGE_HEAD@.len() as int;
    let form = "<form action=\""@ + action + "\" method=\"post\" enctype=\"multipart/form-data\">"@;
    let a = h + 14 + action.len() + 1;
    assert(page.subrange(h, h + form.len()) =~= form);
    assert(matches_at(page, form, h));
    let input = "<input type=\"file\" name=\"uploadedFile\" required multiple>"@;
    assert(page.subrange(a + 62, a + 62 + input.len()) =~= input);
    assert(matches_at(page, input, a + 62));
}

/// Every download, encrypted or not, offers the file under its name: its
/// headers carry `content-disposition: attachment; filename="<name>"`, the
/// same header for an encrypted download as for a plain one.
pub proof fn lemma_download_offers_file_name(name: Seq<char>, len: u64, encrypted: bool)
    ensures
        exists|i: int|
            0 <= i < download_header_list(name, len, encrypted).len() && #[trigger] download_header_list(
                name,
                len,
                encrypted,
            )[i] == ("content-disposition"@, "attachment; filename=\""@ + name + "\""@),
        download_header_list(name, len, true)[2] == download_header_list(name, len, false)[1],
        download_header_list(name, len, false)[1] == ("content-disposition"@,
            "attachment; filename=\""@ + name + "\""@),
{
    let l = download_header_list(name, len, encrypted);
    if encrypted {
        assert(l[2] == ("content-disposition"@, "attachment; filename=\""@ + name + "\""@));
    } else {
        assert(l[1] == ("content-disposition"@, "attachment; filename=\""@ + name + "\""@));
    }
}

} // verus!
