//! The session negotiation engine: the decisions of the login handshake.
//!
//! Network traffic itself happens outside this crate; the functions here
//! classify each observed response, build the form the portal expects, walk
//! redirect chains one hop at a time, and finish the login by scoping the
//! observed cookies and decoding the identity token. Each step's contract
//! pins the decision for every possible observation.

use vstd::prelude::*;
use base64::Engine;
use cbc::cipher::{block_padding::Pkcs7, BlockModeEncrypt, KeyIvInit};
use crate::client::Account;
use crate::cookies::{
    apply_pairs, has_origin, jar_wf, CookieJar, EntryModel,
};
use crate::sso_type::{ElinkLoginInfo, SSOLoginConnectType};

verus! {

/// The canonical single-sign-on entry URL.
pub const ROOT_SSO_LOGIN: &'static str = "http://sso.cczu.edu.cn/sso/login";

/// Origin of the campus single-sign-on host.
pub const ROOT_SSO: &'static str = "http://sso.cczu.edu.cn";

/// Origin of the tunnel gateway host.
pub const ROOT_VPN: &'static str = "https://zmvpn.cczu.edu.cn";

/// How the negotiation and extraction engines fail.
#[derive(Debug, Clone, Copy, PartialEq, Eq, Structural)]
pub enum LoginError {
    /// The transport could not complete a request; the caller may retry.
    TransportError,
    /// An expected header, cookie or field is absent: the portal changed shape.
    ProtocolViolation,
    /// The single-sign-on entry answered with an unexpected status.
    LoginUnavailable,
    /// A redirect chain exceeded the hop bound.
    TooManyRedirects,
}

/// The origin a path's cookies are scoped to.
pub open spec fn origin_of(t: SSOLoginConnectType) -> Seq<char> {
    match t {
        SSOLoginConnectType::COMMON => ROOT_SSO@,
        SSOLoginConnectType::WEBVPN => ROOT_VPN@,
    }
}

/// Executable mirror of `origin_of`.
pub fn origin_of_exec(t: &SSOLoginConnectType) -> (r: String)
    ensures
        r@ == origin_of(*t),
{
    match t {
        SSOLoginConnectType::COMMON => ROOT_SSO.to_owned(),
        SSOLoginConnectType::WEBVPN => ROOT_VPN.to_owned(),
    }
}

/// Classify the status of the unauthenticated probe of the entry URL:
/// `200` means the campus path serves the login form directly, `302` means
/// the tunnel path answers with a redirect, anything else means the
/// single-sign-on service is not usable.
pub fn classify_entry_status(status: u16) -> (r: Result<SSOLoginConnectType, LoginError>)
    ensures
        status == 200 ==> r == Result::<SSOLoginConnectType, LoginError>::Ok(
            SSOLoginConnectType::COMMON,
        ),
        status == 302 ==> r == Result::<SSOLoginConnectType, LoginError>::Ok(
            SSOLoginConnectType::WEBVPN,
        ),
        status != 200 && status != 302 ==> r == Result::<SSOLoginConnectType, LoginError>::Err(
            LoginError::LoginUnavailable,
        ),
{
    if status == 200 {
        Ok(SSOLoginConnectType::COMMON)
    } else if status == 302 {
        Ok(SSOLoginConnectType::WEBVPN)
    } else {
        Err(LoginError::LoginUnavailable)
    }
}

/// What the redirect walker does after one hop.
pub enum RedirectStep {
    /// Issue a request to this location next.
    Follow(String),
    /// The response is terminal; stop walking.
    Terminal,
    /// The walk failed.
    Fail(LoginError),
}

/// One decision of the redirect walker. A `302` with a location is followed
/// while hops remain; a `302` without a location is a protocol violation;
/// exhausting the hop bound fails rather than looping forever; any other
/// status ends the walk.
pub fn redirect_step(status: u16, location: Option<String>, hops: u32, max_hops: u32) -> (r:
    RedirectStep)
    ensures
        status != 302 ==> r is Terminal,
        status == 302 && hops >= max_hops ==> (r matches RedirectStep::Fail(e) && e
            == LoginError::TooManyRedirects),
        status == 302 && hops < max_hops && location is None ==> (r matches RedirectStep::Fail(e)
            && e == LoginError::ProtocolViolation),
        status == 302 && hops < max_hops && location is Some ==> (r matches RedirectStep::Follow(l)
            && l@ == location->Some_0@),
{
    if status != 302 {
        RedirectStep::Terminal
    } else if hops >= max_hops {
        RedirectStep::Fail(LoginError::TooManyRedirects)
    } else {
        match location {
            Some(l) => RedirectStep::Follow(l),
            None => RedirectStep::Fail(LoginError::ProtocolViolation),
        }
    }
}

/// One form field extracted from a login page or sent back in the POST.
pub struct FormField {
    pub name: String,
    pub value: String,
}

/// The fields as pairs of character sequences.
pub open spec fn field_models(s: Seq<FormField>) -> Seq<(Seq<char>, Seq<char>)> {
    s.map_values(|f: FormField| (f.name@, f.value@))
}

/// What base64's standard engine produces for the UTF-8 bytes of a string.
pub uninterp spec fn base64_of(s: Seq<char>) -> Seq<char>;

/// What base64's standard engine yields when decoding a string, read back
/// as UTF-8 text; `None` when the input is not valid padded base64 or the
/// bytes are not UTF-8.
pub uninterp spec fn b64_decoded_of(s: Seq<char>) -> Option<Seq<char>>;

/// Relies on `base64::prelude::BASE64_STANDARD.encode`: standard-alphabet,
/// padded base64 of the string's UTF-8 bytes, a function of the text alone.
#[verifier::external_body]
pub(crate) fn b64_encode_str(s: &str) -> (r: String)
    ensures
        r@ == base64_of(s@),
        s@.len() == 0 ==> r@.len() == 0,
{
    base64::prelude::BASE64_STANDARD.encode(s.as_bytes())
}

/// Relies on `base64::prelude::BASE64_STANDARD.decode`, which inverts
/// `encode`: decoding the encoding of any text gives that text back.
#[verifier::external_body]
pub(crate) fn b64_decode_to_string(s: &str) -> (r: Option<String>)
    ensures
        match b64_decoded_of(s@) {
            Some(t) => r matches Some(u) && u@ == t,
            None => r is None,
        },
        forall|t: Seq<char>| s@ == base64_of(t) ==> r is Some && r->Some_0@ == t,
{
    let bytes = base64::prelude::BASE64_STANDARD.decode(s.as_bytes()).ok()?;
    String::from_utf8(bytes).ok()
}

/// The `(name, value)` pairs of the hidden inputs of an HTML document, in
/// document order; `None` when some hidden input lacks either attribute.
pub uninterp spec fn hidden_fields_of(html: Seq<char>) -> Option<Seq<(Seq<char>, Seq<char>)>>;

/// Relies on `scraper`: parses the document and collects the `name` and
/// `value` attributes of every `input[type="hidden"]` element, in document
/// order — the anti-forgery fields a login form requires verbatim.
#[verifier::external_body]
pub fn parse_hidden_values(html: &str) -> (r: Option<Vec<FormField>>)
    ensures
        match hidden_fields_of(html@) {
            Some(fs) => r matches Some(v) && field_models(v@) == fs,
            None => r is None,
        },
{
    let dom = scraper::Html::parse_document(html);
    let selector = scraper::Selector::parse(r#"input[type="hidden"]"#).unwrap();
    let mut out: Vec<FormField> = Vec::new();
    for element in dom.select(&selector) {
        let name = element.attr("name")?;
        let value = element.attr("value")?;
        out.push(FormField { name: name.to_string(), value: value.to_string() });
    }
    Some(out)
}

/// The identity token encoded in a JSON document: its `username`, `sid`,
/// `userId` and `loginKey` string fields, or `None` where the document does
/// not hold all four.
pub uninterp spec fn client_info_of(s: Seq<char>) -> Option<
    (Seq<char>, Seq<char>, Seq<char>, Seq<char>),
>;

/// Relies on `serde_json`: parses the text as a JSON object and reads its
/// `username`, `sid`, `userId` and `loginKey` string fields.
#[verifier::external_body]
pub(crate) fn parse_client_info_json(s: &str) -> (r: Option<ElinkLoginInfo>)
    ensures
        match client_info_of(s@) {
            Some(t) => r matches Some(i) && i.username@ == t.0 && i.sid@ == t.1 && i.userid@
                == t.2 && i.loginkey@ == t.3,
            None => r is None,
        },
{
    let value: serde_json::Value = serde_json::from_str(s).ok()?;
    let username = value.get("username")?.as_str()?.to_string();
    let sid = value.get("sid")?.as_str()?.to_string();
    let userid = value.get("userId")?.as_str()?.to_string();
    let loginkey = value.get("loginKey")?.as_str()?.to_string();
    Some(ElinkLoginInfo { username, sid, userid, loginkey })
}

/// Decode the identity token a `clientInfo` cookie value carries: base64
/// of a JSON document with the four identity fields.
pub fn decode_client_info(raw: &str) -> (r: Option<ElinkLoginInfo>)
    ensures
        match token_outcome(raw@) {
            Some(t) => r matches Some(i) && i.username@ == t.0 && i.sid@ == t.1 && i.userid@
                == t.2 && i.loginkey@ == t.3,
            None => r is None,
        },
{
    let text = match b64_decode_to_string(raw) {
        Some(text) => text,
        None => {
            return None;
        },
    };
    parse_client_info_json(text.as_str())
}

/// AES-128-CBC ciphertext, PKCS7-padded, of the UTF-8 bytes of a text,
/// under a 16-byte key and IV: a function of its arguments alone.
pub uninterp spec fn aes_cbc_of(key: Seq<u8>, iv: Seq<u8>, msg: Seq<char>) -> Seq<u8>;

/// Relies on `cbc::Encryptor<aes::Aes128Enc>`: AES-128-CBC encryption with
/// PKCS7 padding, deterministic in key, IV and message; `None` exactly when
/// the key or IV is not 16 bytes long.
#[verifier::external_body]
pub(crate) fn aes_cbc_encrypt(key: &Vec<u8>, iv: &Vec<u8>, msg: &str) -> (r: Option<Vec<u8>>)
    ensures
        match r {
            Some(c) => key@.len() == 16 && iv@.len() == 16 && c@ == aes_cbc_of(key@, iv@, msg@),
            None => key@.len() != 16 || iv@.len() != 16,
        },
{
    let encryptor = cbc::Encryptor::<aes::Aes128Enc>::new_from_slices(key, iv).ok()?;
    let bytes = msg.as_bytes();
    let mut buffer = vec![0u8; bytes.len() + 16];
    buffer[..bytes.len()].copy_from_slice(bytes);
    let ciphertext = encryptor.encrypt_padded::<Pkcs7>(&mut buffer, bytes.len()).ok()?;
    Some(ciphertext.to_vec())
}

/// The base64 text of raw bytes, standard padded alphabet.
pub uninterp spec fn base64_bytes_of(b: Seq<u8>) -> Seq<char>;

/// Relies on `base64::prelude::BASE64_STANDARD.encode` over raw bytes.
#[verifier::external_body]
pub(crate) fn b64_encode_bytes(b: &Vec<u8>) -> (r: String)
    ensures
        r@ == base64_bytes_of(b@),
{
    base64::prelude::BASE64_STANDARD.encode(b)
}

/// The bytes of a token read as characters, one per byte.
pub open spec fn token_text(token: Seq<u8>) -> Seq<char> {
    token.map_values(|b: u8| b as char)
}

/// The form the tunnel's own login endpoint expects: the account name, the
/// password AES-encrypted under the per-login token (IV: the token's
/// bytes; key: those bytes reversed) and base64-encoded, the token itself,
/// and a fixed language tag.
pub open spec fn webvpn_form_spec(user: Seq<char>, password: Seq<char>, token: Seq<u8>) -> Seq<
    (Seq<char>, Seq<char>),
> {
    seq![
        ("username"@, user),
        ("password"@, base64_bytes_of(aes_cbc_of(token.reverse(), token, password))),
        ("token"@, token_text(token.reverse())),
        ("language"@, "zh-CN,zh;q=0.9,en;q=0.8"@),
    ]
}

/// Build the tunnel's direct login form from the account and a fresh
/// 16-byte token; any token of another length is rejected.
pub fn build_webvpn_form(account: &Account, token: &Vec<u8>) -> (r: Option<Vec<FormField>>)
    ensures
        token@.len() == 16 ==> (r matches Some(form) && field_models(form@) == webvpn_form_spec(
            account.user@,
            account.password@,
            token@,
        )),
        token@.len() != 16 ==> r is None,
{
    if token.len() != 16 {
        return None;
    }
    let key = reverse_bytes(token);
    let encrypted = match aes_cbc_encrypt(&key, token, account.password.as_str()) {
        Some(c) => c,
        None => {
            proof {
                assert(false);
            }
            unreached()
        },
    };
    let mut out: Vec<FormField> = Vec::new();
    out.push(FormField { name: "username".to_owned(), value: account.user.clone() });
    out.push(FormField { name: "password".to_owned(), value: b64_encode_bytes(&encrypted) });
    out.push(FormField { name: "token".to_owned(), value: bytes_text(&key) });
    out.push(
        FormField { name: "language".to_owned(), value: "zh-CN,zh;q=0.9,en;q=0.8".to_owned() },
    );
    proof {
        assert(field_models(out@) =~~= webvpn_form_spec(
            account.user@,
            account.password@,
            token@,
        ));
    }
    Some(out)
}

/// The bytes of a vector in reverse order.
fn reverse_bytes(v: &Vec<u8>) -> (r: Vec<u8>)
    ensures
        r@ == v@.reverse(),
{
    let n = v.len();
    let mut r: Vec<u8> = Vec::new();
    let mut i: usize = 0;
    while i < n
        invariant
            i <= n,
            n == v@.len(),
            r@.len() == i,
            forall|j: int| 0 <= j < i ==> r@[j] == v@[n - 1 - j],
        decreases n - i,
    {
        r.push(v[n - 1 - i]);
        i = i + 1;
    }
    proof {
        assert(r@ =~= v@.reverse());
    }
    r
}

/// A token's bytes as a string, one character per byte.
fn bytes_text(v: &Vec<u8>) -> (r: String)
    ensures
        r@ == token_text(v@),
{
    let mut r = String::new();
    let mut i: usize = 0;
    while i < v.len()
        invariant
            i <= v@.len(),
            r@ == token_text(v@.take(i as int)),
        decreases v@.len() - i,
    {
        crate::strutil::push_char(&mut r, v[i] as char);
        i = i + 1;
        proof {
            assert(token_text(v@.take(i as int)) =~= token_text(v@.take(i - 1)).push(
                v@[i - 1] as char,
            ));
        }
    }
    proof {
        assert(v@.take(v@.len() as int) =~= v@);
        assert(token_text(v@.take(v@.len() as int)) =~= token_text(v@));
    }
    r
}

/// A form field name that the credential step overwrites.
pub open spec fn is_credential_name(n: Seq<char>) -> bool {
    n == "username"@ || n == "password"@
}

/// The hidden fields with any `username` or `password` entry removed.
pub open spec fn form_without_credentials(fs: Seq<(Seq<char>, Seq<char>)>) -> Seq<
    (Seq<char>, Seq<char>),
>
    decreases fs.len(),
{
    if fs.len() == 0 {
        Seq::empty()
    } else {
        let rest = form_without_credentials(fs.drop_first());
        if is_credential_name(fs.first().0) {
            rest
        } else {
            seq![fs.first()] + rest
        }
    }
}

/// Some field of the list has this name.
pub open spec fn has_name(fs: Seq<(Seq<char>, Seq<char>)>, n: Seq<char>) -> bool {
    exists|x: int| 0 <= x < fs.len() && (#[trigger] fs[x]).0 == n
}

/// The fields as a flat name-to-value map: each name once, the last
/// occurrence surviving in its place.
pub open spec fn dedup_fields(fs: Seq<(Seq<char>, Seq<char>)>) -> Seq<(Seq<char>, Seq<char>)>
    decreases fs.len(),
{
    if fs.len() == 0 {
        Seq::empty()
    } else {
        let rest = dedup_fields(fs.drop_first());
        if has_name(rest, fs.first().0) {
            rest
        } else {
            seq![fs.first()] + rest
        }
    }
}

proof fn lemma_dedup_has_name(fs: Seq<(Seq<char>, Seq<char>)>, n: Seq<char>)
    ensures
        has_name(dedup_fields(fs), n) <==> has_name(fs, n),
    decreases fs.len(),
{
    if fs.len() > 0 {
        let rest = dedup_fields(fs.drop_first());
        lemma_dedup_has_name(fs.drop_first(), n);
        if has_name(rest, fs.first().0) {
            if fs.first().0 == n {
                assert(has_name(dedup_fields(fs), n));
                assert(has_name(fs, n)) by {
                    assert(fs[0].0 == n);
                }
            } else {
                if has_name(fs, n) {
                    let x = choose|x: int| 0 <= x < fs.len() && (#[trigger] fs[x]).0 == n;
                    assert(fs.drop_first()[x - 1] == fs[x]);
                    assert(has_name(fs.drop_first(), n));
                }
                if has_name(fs.drop_first(), n) {
                    let x = choose|x: int|
                        0 <= x < fs.drop_first().len() && (#[trigger] fs.drop_first()[x]).0 == n;
                    assert(fs[x + 1] == fs.drop_first()[x]);
                    assert(has_name(fs, n));
                }
            }
        } else {
            let d = dedup_fields(fs);
            assert(d == seq![fs.first()] + rest);
            if has_name(d, n) {
                let x = choose|x: int| 0 <= x < d.len() && (#[trigger] d[x]).0 == n;
                if x == 0 {
                    assert(fs[0].0 == n);
                    assert(has_name(fs, n));
                } else {
                    assert(d[x] == rest[x - 1]);
                    assert(has_name(rest, n));
                    let y = choose|y: int|
                        0 <= y < fs.drop_first().len() && (#[trigger] fs.drop_first()[y]).0 == n;
                    assert(fs[y + 1] == fs.drop_first()[y]);
                    assert(has_name(fs, n));
                }
            }
            if has_name(fs, n) {
                let x = choose|x: int| 0 <= x < fs.len() && (#[trigger] fs[x]).0 == n;
                if x == 0 {
                    assert(d[0] == fs.first());
                    assert(has_name(d, n));
                } else {
                    assert(fs.drop_first()[x - 1] == fs[x]);
                    assert(has_name(fs.drop_first(), n));
                    assert(has_name(rest, n));
                    let y = choose|y: int| 0 <= y < rest.len() && (#[trigger] rest[y]).0 == n;
                    assert(d[y + 1] == rest[y]);
                    assert(has_name(d, n));
                }
            }
        }
    }
}

/// The form the portal expects: the hidden fields replayed as a flat
/// name-to-value map (each name once, the last value winning), then the
/// account name, then the base64 of the raw password — the portal's own
/// wire convention, reproduced byte for byte.
pub open spec fn login_form_spec(
    hidden: Seq<(Seq<char>, Seq<char>)>,
    user: Seq<char>,
    password: Seq<char>,
) -> Seq<(Seq<char>, Seq<char>)> {
    form_without_credentials(dedup_fields(hidden)) + seq![
        ("username"@, user),
        ("password"@, base64_of(password)),
    ]
}

/// Build the credential POST form from the extracted hidden fields and the
/// account.
pub fn build_login_form(hidden: &Vec<FormField>, account: &Account) -> (r: Vec<FormField>)
    ensures
        field_models(r@) == login_form_spec(
            field_models(hidden@),
            account.user@,
            account.password@,
        ),
{
    let ghost hm = field_models(hidden@);
    let uname: String = "username".to_owned();
    let pname: String = "password".to_owned();
    let mut out: Vec<FormField> = Vec::new();
    let mut i: usize = 0;
    proof {
        assert(hm.skip(0) =~= hm);
        assert(field_models(out@) + form_without_credentials(dedup_fields(hm))
            =~= form_without_credentials(dedup_fields(hm)));
    }
    while i < hidden.len()
        invariant
            i <= hidden@.len(),
            hm == field_models(hidden@),
            hm.len() == hidden@.len(),
            uname@ == "username"@,
            pname@ == "password"@,
            forall|j: int| 0 <= j < hm.len() ==> #[trigger] hm[j] == (hidden@[j].name@, hidden@[j].value@),
            form_without_credentials(dedup_fields(hm)) == field_models(out@)
                + form_without_credentials(dedup_fields(hm.skip(i as int))),
        decreases hidden@.len() - i,
    {
        let ghost pre = hm.skip(i as int);
        assert(pre[0] == hm[i as int]);
        assert(pre.drop_first() =~= hm.skip(i + 1));
        let ghost drest = dedup_fields(hm.skip(i + 1));
        let repeated = name_repeats_later(hidden, i);
        proof {
            lemma_dedup_has_name(hm.skip(i + 1), hm[i as int].0);
        }
        if repeated {
            // a later field with this name wins: drop this occurrence
            assert(dedup_fields(pre) == drest);
        } else {
            assert(dedup_fields(pre) == seq![pre.first()] + drest);
            assert((seq![pre.first()] + drest).first() == pre.first());
            assert((seq![pre.first()] + drest).drop_first() =~= drest);
            if !(hidden[i].name == uname || hidden[i].name == pname) {
                assert(!is_credential_name(pre.first().0));
                let ghost old_models = field_models(out@);
                let f = FormField { name: hidden[i].name.clone(), value: hidden[i].value.clone() };
                let ghost fm = (f.name@, f.value@);
                out.push(f);
                proof {
                    assert(field_models(out@) =~= old_models.push(fm));
                    assert(field_models(out@) + form_without_credentials(drest) =~= old_models + (
                    seq![fm] + form_without_credentials(drest)));
                }
            } else {
                assert(is_credential_name(pre.first().0));
            }
        }
        i = i + 1;
    }
    assert(hm.skip(hm.len() as int) =~= Seq::<(Seq<char>, Seq<char>)>::empty());
    assert(dedup_fields(Seq::empty()) =~= Seq::<(Seq<char>, Seq<char>)>::empty());
    assert(field_models(out@) + form_without_credentials(Seq::empty()) =~= field_models(out@));
    let ghost before = field_models(out@);
    let encoded = b64_encode_str(account.password.as_str());
    out.push(FormField { name: uname, value: account.user.clone() });
    out.push(FormField { name: pname, value: encoded });
    proof {
        assert(field_models(out@) =~= before + seq![
            ("username"@, account.user@),
            ("password"@, base64_of(account.password@)),
        ]);
    }
    out
}

/// Whether a later hidden field carries the same name as the one at `i`.
fn name_repeats_later(hidden: &Vec<FormField>, i: usize) -> (r: bool)
    requires
        i < hidden@.len(),
    ensures
        r == has_name(field_models(hidden@).skip(i + 1), field_models(hidden@)[i as int].0),
{
    let ghost hm = field_models(hidden@);
    let n = hidden.len();
    let mut j: usize = i + 1;
    while j < n
        invariant
            i < j <= n,
            n == hidden@.len(),
            hm == field_models(hidden@),
            hm.len() == n,
            forall|x: int| i < x < j ==> (#[trigger] hm[x]).0 != hm[i as int].0,
        decreases n - j,
    {
        if hidden[j].name == hidden[i].name {
            proof {
                assert(hm[j as int].0 == hm[i as int].0);
                assert(hm.skip(i + 1)[j - i - 1] == hm[j as int]);
            }
            return true;
        }
        assert(hm[j as int].0 != hm[i as int].0);
        j = j + 1;
    }
    proof {
        if has_name(hm.skip(i + 1), hm[i as int].0) {
            let x = choose|x: int|
                0 <= x < hm.skip(i + 1).len() && (#[trigger] hm.skip(i + 1)[x]).0 == hm[
                    i as int].0;
            assert(hm.skip(i + 1)[x] == hm[x + i + 1]);
        }
    }
    false
}

/// One cookie observed in a response's `Set-Cookie` headers.
pub struct SetCookie {
    pub name: String,
    pub value: String,
}

/// Observed cookies as jar entries scoped to one origin.
pub open spec fn set_models(s: Seq<SetCookie>, origin: Seq<char>) -> Seq<EntryModel> {
    s.map_values(|c: SetCookie| EntryModel { origin, name: c.name@, value: c.value@ })
}

/// The value of the first cookie with the given name.
pub open spec fn find_cookie(s: Seq<EntryModel>, name: Seq<char>) -> Option<Seq<char>>
    decreases s.len(),
{
    if s.len() == 0 {
        None
    } else if s.first().name == name {
        Some(s.first().value)
    } else {
        find_cookie(s.drop_first(), name)
    }
}

/// The identity token carried by a `clientInfo` cookie value: base64 of a
/// JSON document with the four identity fields.
pub open spec fn token_outcome(v: Seq<char>) -> Option<(Seq<char>, Seq<char>, Seq<char>, Seq<char>)> {
    match b64_decoded_of(v) {
        None => None,
        Some(txt) => client_info_of(txt),
    }
}

/// One account's negotiation state: its credentials, the shared cookie jar,
/// and the network path, written exactly once by the negotiation.
pub struct Session {
    pub account: Account,
    pub jar: CookieJar,
    pub connect_type: Option<SSOLoginConnectType>,
}

impl Session {
    /// The session's invariant: its jar holds one value per key.
    pub open spec fn wf(&self) -> bool {
        jar_wf(self.jar@)
    }

    /// A fresh session for one account: empty jar, no path negotiated yet.
    pub fn new(account: Account) -> (r: Session)
        ensures
            r.wf(),
            r.jar@ == Seq::<EntryModel>::empty(),
            r.connect_type is None,
            r.account == account,
    {
        Session { account, jar: CookieJar::new(), connect_type: None }
    }

    /// Record the negotiated path. The path is written exactly once: a
    /// second write is a caller error, excluded by the precondition.
    pub fn write_connect_type(&mut self, t: SSOLoginConnectType)
        requires
            old(self).connect_type is None,
        ensures
            final(self).connect_type == Some(t),
            final(self).jar == old(self).jar,
            final(self).account == old(self).account,
    {
        self.connect_type = Some(t);
    }

    /// Store every observed cookie under the origin of the given path.
    pub fn record_cookies(&mut self, t: &SSOLoginConnectType, cookies: &Vec<SetCookie>)
        requires
            old(self).wf(),
        ensures
            final(self).wf(),
            final(self).jar@ == apply_pairs(
                old(self).jar@,
                set_models(cookies@, origin_of(*t)),
                origin_of(*t),
            ),
            final(self).account == old(self).account,
            final(self).connect_type == old(self).connect_type,
    {
        let ghost origin = origin_of(*t);
        let ghost pm = set_models(cookies@, origin);
        let n = cookies.len();
        let mut i: usize = 0;
        proof {
            assert(pm.skip(0) =~= pm);
        }
        while i < n
            invariant
                i <= n,
                n == cookies@.len(),
                pm == set_models(cookies@, origin),
                pm.len() == n,
                origin == origin_of(*t),
                jar_wf(self.jar@),
                self.account == old(self).account,
                self.connect_type == old(self).connect_type,
                apply_pairs(old(self).jar@, pm, origin) == apply_pairs(
                    self.jar@,
                    pm.skip(i as int),
                    origin,
                ),
            decreases n - i,
        {
            let ghost pre = pm.skip(i as int);
            assert(pre[0] == pm[i as int]);
            assert(pre.drop_first() =~= pm.skip(i + 1));
            let origin_s = origin_of_exec(t);
            self.jar.set_cookie(origin_s, cookies[i].name.clone(), cookies[i].value.clone());
            i = i + 1;
        }
        assert(pm.skip(n as int) =~= Seq::<EntryModel>::empty());
    }

    /// Finish the negotiation after the terminal response of either path.
    ///
    /// The observed cookies are scoped to the path's origin and the path is
    /// recorded, exactly once. On the tunneled path the identity token is
    /// decoded from the `clientInfo` cookie — the only place it exists — and
    /// its absence is a protocol violation.
    ///
    /// LAW: this either returns the negotiated path with the jar holding at
    /// least one cookie for that path's origin, or it returns an error —
    /// never success with an empty jar.
    pub fn finish_login(&mut self, path: SSOLoginConnectType, observed: &Vec<SetCookie>) -> (r:
        Result<Option<ElinkLoginInfo>, LoginError>)
        requires
            old(self).wf(),
            old(self).connect_type is None,
        ensures
            final(self).wf(),
            final(self).account == old(self).account,
            final(self).connect_type == Some(path),
            final(self).jar@ == apply_pairs(
                old(self).jar@,
                set_models(observed@, origin_of(path)),
                origin_of(path),
            ),
            r is Ok ==> has_origin(final(self).jar@, origin_of(path)),
            !has_origin(final(self).jar@, origin_of(path)) ==> r == Result::<
                Option<ElinkLoginInfo>,
                LoginError,
            >::Err(LoginError::ProtocolViolation),
            has_origin(final(self).jar@, origin_of(path)) && path is COMMON ==> r
                == Result::<Option<ElinkLoginInfo>, LoginError>::Ok(None),
            has_origin(final(self).jar@, origin_of(path)) && path is WEBVPN ==> (match find_cookie(
                set_models(observed@, origin_of(path)),
                "clientInfo"@,
            ) {
                None => r == Result::<Option<ElinkLoginInfo>, LoginError>::Err(
                    LoginError::ProtocolViolation,
                ),
                Some(v) => match token_outcome(v) {
                    None => r == Result::<Option<ElinkLoginInfo>, LoginError>::Err(
                        LoginError::ProtocolViolation,
                    ),
                    Some(t) => r matches Ok(Some(i)) && i.username@ == t.0 && i.sid@ == t.1
                        && i.userid@ == t.2 && i.loginkey@ == t.3,
                },
            }),
    {
        self.record_cookies(&path, observed);
        self.write_connect_type(path);
        let origin_s = origin_of_exec(&path);
        if !self.jar.has_cookie_for(&origin_s) {
            return Err(LoginError::ProtocolViolation);
        }
        match path {
            SSOLoginConnectType::COMMON => Ok(None),
            SSOLoginConnectType::WEBVPN => {
                let raw = match find_cookie_exec(observed) {
                    Some(raw) => raw,
                    None => {
                        return Err(LoginError::ProtocolViolation);
                    },
                };
                match decode_client_info(raw.as_str()) {
                    Some(info) => Ok(Some(info)),
                    None => Err(LoginError::ProtocolViolation),
                }
            },
        }
    }
}

/// The value of the first observed cookie named `clientInfo`.
fn find_cookie_exec(observed: &Vec<SetCookie>) -> (r: Option<String>)
    ensures
        forall|origin: Seq<char>|
            match find_cookie(#[trigger] set_models(observed@, origin), "clientInfo"@) {
                Some(v) => r matches Some(u) && u@ == v,
                None => r is None,
            },
{
    let cname: String = "clientInfo".to_owned();
    let n = observed.len();
    let mut i: usize = 0;
    while i < n
        invariant
            i <= n,
            n == observed@.len(),
            cname@ == "clientInfo"@,
            forall|j: int| 0 <= j < i ==> (#[trigger] observed@[j]).name@ != "clientInfo"@,
        decreases n - i,
    {
        if observed[i].name == cname {
            let r = observed[i].value.clone();
            proof {
                assert forall|origin: Seq<char>|
                    find_cookie(#[trigger] set_models(observed@, origin), "clientInfo"@) == Some(
                        observed@[i as int].value@,
                    ) by {
                    lemma_find_cookie_at(set_models(observed@, origin), i as int, "clientInfo"@);
                }
            }
            return Some(r);
        }
        i = i + 1;
    }
    proof {
        assert forall|origin: Seq<char>|
            find_cookie(#[trigger] set_models(observed@, origin), "clientInfo"@) is None by {
            lemma_find_cookie_none(set_models(observed@, origin), "clientInfo"@);
        }
    }
    None
}

proof fn lemma_find_cookie_at(s: Seq<EntryModel>, i: int, name: Seq<char>)
    requires
        0 <= i < s.len(),
        s[i].name == name,
        forall|j: int| 0 <= j < i ==> (#[trigger] s[j]).name != name,
    ensures
        find_cookie(s, name) == Some(s[i].value),
    decreases i,
{
    if i == 0 {
    } else {
        assert(forall|j: int|
            0 <= j < i - 1 ==> (#[trigger] s.drop_first()[j]).name != name && s.drop_first()[j]
                == s[j + 1]);
        lemma_find_cookie_at(s.drop_first(), i - 1, name);
    }
}

proof fn lemma_find_cookie_none(s: Seq<EntryModel>, name: Seq<char>)
    requires
        forall|j: int| 0 <= j < s.len() ==> (#[trigger] s[j]).name != name,
    ensures
        find_cookie(s, name) is None,
    decreases s.len(),
{
    if s.len() > 0 {
        lemma_find_cookie_none(s.drop_first(), name);
    }
}

/// The tunnel's rewrite of one known upstream application URL; every other
/// URL passes through unchanged.
pub open spec fn tunnel_rewrite(u: Seq<char>) -> Seq<char> {
    if u == "http://219.230.159.132"@ {
        "https://zmvpn.cczu.edu.cn/http/webvpndc2d086cb5b297c15e661687e73c1549"@
    } else {
        u
    }
}

/// The URL the rest of the application must use for a target, given the
/// negotiated path: on the tunneled path known upstream URLs are rewritten
/// to their tunnel-prefixed equivalents, on the campus path every URL is
/// used as it stands.
pub fn sso_redirect_url(t: &SSOLoginConnectType, url: String) -> (r: String)
    ensures
        t is COMMON ==> r@ == url@,
        t is WEBVPN ==> r@ == tunnel_rewrite(url@),
{
    match t {
        SSOLoginConnectType::COMMON => url,
        SSOLoginConnectType::WEBVPN => {
            let upstream: String = "http://219.230.159.132".to_owned();
            if url == upstream {
                "https://zmvpn.cczu.edu.cn/http/webvpndc2d086cb5b297c15e661687e73c1549".to_owned()
            } else {
                url
            }
        },
    }
}

/// One sequence occurs inside another.
pub open spec fn contains_sub(s: Seq<char>, sub: Seq<char>) -> bool {
    exists|i: int| 0 <= i <= s.len() - sub.len() && #[trigger] s.subrange(i, i + sub.len()) == sub
}

/// Whether a probe of the service-qualified entry URL shows a live login:
/// a `200` serves the login form (not logged in), a `302` back to the login
/// page means the session expired, and only a `302` elsewhere shows an
/// authenticated session. Any other status is no session.
pub fn login_available_decision(status: u16, location: Option<&String>) -> (r: bool)
    ensures
        status == 200 ==> r == false,
        status == 302 ==> (match location {
            Some(l) => r == !contains_sub(l@, "sso/login"@),
            None => r == false,
        }),
        status != 200 && status != 302 ==> r == false,
{
    if status == 302 {
        match location {
            Some(l) => {
                let lc = crate::strutil::to_chars(l.as_str());
                let needle = crate::strutil::to_chars("sso/login");
                !contains_sub_exec(&lc, &needle)
            },
            None => false,
        }
    } else {
        false
    }
}

/// Executable substring search.
fn contains_sub_exec(s: &Vec<char>, sub: &Vec<char>) -> (r: bool)
    ensures
        r == contains_sub(s@, sub@),
{
    if sub.len() == 0 {
        proof {
            let i: int = 0;
            assert(s@.subrange(i, i + sub@.len()) =~= sub@);
        }
        return true;
    }
    if sub.len() > s.len() {
        proof {
            if contains_sub(s@, sub@) {
                let i = choose|i: int|
                    0 <= i <= s@.len() - sub@.len() && #[trigger] s@.subrange(i, i + sub@.len())
                        == sub@;
                assert(false);
            }
        }
        return false;
    }
    let m = s.len() - sub.len() + 1;
    let mut i: usize = 0;
    while i < m
        invariant
            i <= m,
            m == s@.len() - sub@.len() + 1,
            1 <= sub@.len() <= s@.len(),
            forall|j: int| 0 <= j < i ==> #[trigger] s@.subrange(j, j + sub@.len()) != sub@,
        decreases m - i,
    {
        if match_at(s, sub, i) {
            return true;
        }
        i = i + 1;
    }
    proof {
        if contains_sub(s@, sub@) {
            let j = choose|j: int|
                0 <= j <= s@.len() - sub@.len() && #[trigger] s@.subrange(j, j + sub@.len())
                    == sub@;
            assert(j < m);
        }
    }
    false
}

/// Whether `sub` occurs in `s` at position `i`.
fn match_at(s: &Vec<char>, sub: &Vec<char>, i: usize) -> (r: bool)
    requires
        i + sub@.len() <= s@.len(),
    ensures
        r == (s@.subrange(i as int, i + sub@.len()) == sub@),
{
    let sl = s.len();
    let mut k: usize = 0;
    while k < sub.len()
        invariant
            k <= sub@.len(),
            i + sub@.len() <= s@.len(),
            s@.len() == sl,
            forall|x: int| 0 <= x < k ==> s@[i + x] == sub@[x],
        decreases sub@.len() - k,
    {
        if s[i + k] != sub[k] {
            proof {
                assert(s@.subrange(i as int, i + sub@.len())[k as int] == s@[i + k]);
            }
            return false;
        }
        k = k + 1;
    }
    proof {
        assert(s@.subrange(i as int, i + sub@.len()) =~= sub@);
    }
    true
}

/// Whether the service-qualified entry's first answer shows an existing
/// session: a redirect means the portal skipped the credential form, and
/// the chain is resolved without resubmitting credentials.
pub fn already_authenticated(status: u16) -> (r: bool)
    ensures
        r == (status == 302),
{
    status == 302
}

/// The service-qualified login URL: the entry URL with a `service` query.
pub fn service_login_url(service: &str) -> (r: String)
    ensures
        r@ == ROOT_SSO_LOGIN@ + "?service="@ + service@,
{
    let mut r: String = ROOT_SSO_LOGIN.to_owned();
    r.append("?service=");
    r.append(service);
    r
}

} // verus!
