use vstd::prelude::*;
use vstd::string::StringExecFns;

verus! {

/// Where and how an uploaded image is to be stored by the image host.
pub struct UploadImageOptions {
    pub folder: Option<String>,
    pub public_id: Option<String>,
    pub transformation: Option<String>,
}

/// The text of an optional string.
pub open spec fn opt_text(o: Option<String>) -> Option<Seq<char>> {
    match o {
        Some(s) => Some(s@),
        None => None,
    }
}

/// A parameter that is present only when its value is.
pub open spec fn opt_param(key: Seq<char>, value: Option<Seq<char>>) -> Seq<(Seq<char>, Seq<char>)> {
    match value {
        Some(v) => seq![(key, v)],
        None => Seq::empty(),
    }
}

/// The signed parameters of an upload, in alphabetical order of key:
/// `folder`, `public_id`, `timestamp`, `transformation`; the optional ones
/// only where they are set.
pub open spec fn signed_params(option: UploadImageOptions, timestamp: Seq<char>) -> Seq<(Seq<char>, Seq<char>)> {
    opt_param("folder"@, opt_text(option.folder)) + opt_param("public_id"@, opt_text(option.public_id))
        + seq![("timestamp"@, timestamp)] + opt_param("transformation"@, opt_text(option.transformation))
}

/// `key=value`.
pub open spec fn param_text(p: (Seq<char>, Seq<char>)) -> Seq<char> {
    p.0 + "="@ + p.1
}

/// The parameters as `k1=v1&k2=v2&...`.
pub open spec fn joined_params(ps: Seq<(Seq<char>, Seq<char>)>) -> Seq<char>
    decreases ps.len(),
{
    if ps.len() == 0 {
        Seq::empty()
    } else if ps.len() == 1 {
        param_text(ps[0])
    } else {
        joined_params(ps.drop_last()) + "&"@ + param_text(ps.last())
    }
}

/// The texts of a list of string pairs.
pub open spec fn pairs_text(v: Seq<(String, String)>) -> Seq<(Seq<char>, Seq<char>)> {
    v.map_values(|p: (String, String)| (p.0@, p.1@))
}

/// The lowercase hexadecimal SHA-1 digest of the UTF-8 bytes of `s`.
pub uninterp spec fn sha1_hex(s: Seq<char>) -> Seq<char>;

/// Relies on `sha1::Sha1` through `Digest::digest`, printed with `{:x}`
/// (generic-array's lowercase hex): the result depends on `s` alone.
#[verifier::external_body]
fn sha1_lower_hex(s: &str) -> (r: String)
    ensures
        r@ == sha1_hex(s@),
{
    format!("{:x}", <sha1::Sha1 as sha1::Digest>::digest(s.as_bytes()))
}

fn push_param(params: &mut Vec<(String, String)>, key: &str, value: &String)
    ensures
        pairs_text(final(params)@) == pairs_text(old(params)@).push((key@, value@)),
{
    let ghost before = params@;
    params.push((String::from_str(key), value.clone()));
    assert(pairs_text(params@) =~= pairs_text(before).push((key@, value@)));
}

/// The parameters that the signature covers, in the order it covers them.
pub fn signed_param_list(option: &UploadImageOptions, timestamp: &str) -> (r: Vec<(String, String)>)
    ensures
        pairs_text(r@) == signed_params(*option, timestamp@),
{
    let mut params: Vec<(String, String)> = Vec::new();
    assert(pairs_text(params@) =~= Seq::empty());
    if let Some(folder) = &option.folder {
        push_param(&mut params, "folder", folder);
    }
    if let Some(public_id) = &option.public_id {
        push_param(&mut params, "public_id", public_id);
    }
    let ts = String::from_str(timestamp);
    push_param(&mut params, "timestamp", &ts);
    if let Some(transformation) = &option.transformation {
        push_param(&mut params, "transformation", transformation);
    }
    assert(pairs_text(params@) =~= signed_params(*option, timestamp@));
    params
}

/// The text that is signed: the signed parameters as `k=v` joined by `&`.
pub fn signature_payload(params: &Vec<(String, String)>) -> (r: String)
    ensures
        r@ == joined_params(pairs_text(params@)),
{
    let ghost ps = pairs_text(params@);
    let mut out = String::new();
    let mut i: usize = 0;
    while i < params.len()
        invariant
            i <= params@.len(),
            ps == pairs_text(params@),
            out@ == joined_params(ps.take(i as int)),
        decreases params@.len() - i,
    {
        let ghost prev = out@;
        if i > 0 {
            out.append("&");
        }
        out.append(params[i].0.as_str());
        out.append("=");
        out.append(params[i].1.as_str());
        proof {
            let t = ps.take(i as int + 1);
            assert(t.drop_last() =~= ps.take(i as int));
            assert(t.last() == ps[i as int]);
            if i == 0 {
                assert(out@ =~= param_text(ps[0]));
            } else {
                assert(out@ =~= prev + "&"@ + param_text(ps[i as int]));
            }
        }
        i = i + 1;
    }
    assert(ps.take(params@.len() as int) =~= ps);
    out
}

/// The signature of an upload: SHA-1, in lowercase hex, of the payload
/// followed by the account's secret.
pub fn sign(payload: &String, api_secret: &str) -> (r: String)
    ensures
        r@ == sha1_hex(payload@ + api_secret@),
{
    let text = payload.clone().concat(api_secret);
    sha1_lower_hex(text.as_str())
}

/// The text fields of an upload form: the signed parameters, then
/// `resource_type=image` (unsigned), the signature and the API key.
pub fn form_builder(option: &UploadImageOptions, timestamp: &str, api_key: &str, api_secret: &str) -> (r: Vec<
    (String, String),
>)
    ensures
        pairs_text(r@) == signed_params(*option, timestamp@) + seq![
            ("resource_type"@, "image"@),
            ("signature"@, sha1_hex(joined_params(signed_params(*option, timestamp@)) + api_secret@)),
            ("api_key"@, api_key@),
        ],
{
    let mut fields = signed_param_list(option, timestamp);
    let payload = signature_payload(&fields);
    let signature = sign(&payload, api_secret);
    let image = String::from_str("image");
    push_param(&mut fields, "resource_type", &image);
    push_param(&mut fields, "signature", &signature);
    let key = String::from_str(api_key);
    push_param(&mut fields, "api_key", &key);
    assert(pairs_text(fields@) =~= signed_params(*option, timestamp@) + seq![
        ("resource_type"@, "image"@),
        ("signature"@, sha1_hex(joined_params(signed_params(*option, timestamp@)) + api_secret@)),
        ("api_key"@, api_key@),
    ]);
    fields
}

/// Whether the image host's account is configured: the placeholder cloud
/// `demo` and the placeholder key `123456789` count as not configured.
pub fn is_configured(cloud_name: &String, api_key: &String) -> (r: bool)
    ensures
        r == (cloud_name@ != "demo"@ && api_key@ != "123456789"@),
{
    let demo = String::from_str("demo");
    let placeholder_key = String::from_str("123456789");
    !(*cloud_name == demo) && !(*api_key == placeholder_key)
}

/// The upload endpoint of a cloud.
pub fn upload_url(cloud_name: &str) -> (r: String)
    ensures
        r@ == "https://api.cloudinary.com/v1_1/"@ + cloud_name@ + "/image/upload"@,
{
    let mut url = String::from_str("https://api.cloudinary.com/v1_1/");
    url.append(cloud_name);
    url.append("/image/upload");
    url
}

} // verus!
