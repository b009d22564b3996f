use vstd::prelude::*;
use vstd::string::StringSliceAdditionalSpecFns;

verus! {

/// The image formats an uploaded data URL may carry.
#[derive(Clone, Copy, Debug, PartialEq, Eq, Structural)]
pub enum ImageFormat {
    Png,
    Jpeg,
}

impl ImageFormat {
    /// The file extension under which an image of this format is stored.
    pub fn extension(&self) -> (r: &'static str)
        ensures
            *self == ImageFormat::Png ==> r@ == "png"@,
            *self == ImageFormat::Jpeg ==> r@ == "jpg"@,
    {
        match self {
            ImageFormat::Png => "png",
            ImageFormat::Jpeg => "jpg",
        }
    }
}

/// Why a data URL could not be turned into an image.
#[derive(Clone, Copy, Debug, PartialEq, Eq, Structural)]
pub enum ImageError {
    /// The URL does not hold exactly one comma between header and payload.
    InvalidFormat,
    /// The header names neither PNG nor JPEG.
    UnsupportedType,
    /// The payload is not valid standard base64.
    InvalidBase64,
}

/// An image taken out of a data URL.
#[derive(Debug, PartialEq, Eq)]
pub struct DecodedImage {
    pub format: ImageFormat,
    pub bytes: Vec<u8>,
}

/// What base64's standard engine (padded, standard alphabet) decodes `s`
/// to; `None` where it reports an error.
pub uninterp spec fn base64_standard_decode(s: Seq<u8>) -> Option<Seq<u8>>;

/// Relies on `base64::Engine::decode` with `general_purpose::STANDARD`: its
/// result depends on the input bytes alone.
#[verifier::external_body]
fn decode_base64(s: &[u8]) -> (r: Option<Vec<u8>>)
    ensures
        match r {
            Some(v) => base64_standard_decode(s@) == Some(v@),
            None => base64_standard_decode(s@) is None,
        },
{
    base64::Engine::decode(&base64::engine::general_purpose::STANDARD, s).ok()
}

/// `needle` occurs in `hay` as a contiguous run.
pub open spec fn has_run(hay: Seq<u8>, needle: Seq<u8>) -> bool {
    exists|i: int| 0 <= i && i + needle.len() <= hay.len() && #[trigger] hay.subrange(i, i + needle.len()) == needle
}

/// ASCII `,`, between a data URL's header and its payload.
pub const COMMA: u8 = 44;

/// ASCII `image/png`.
pub open spec fn png_mark() -> Seq<u8> {
    seq![105u8, 109, 97, 103, 101, 47, 112, 110, 103]
}

/// ASCII `image/jpeg`.
pub open spec fn jpeg_mark() -> Seq<u8> {
    seq![105u8, 109, 97, 103, 101, 47, 106, 112, 101, 103]
}

/// ASCII `image/jpg`.
pub open spec fn jpg_mark() -> Seq<u8> {
    seq![105u8, 109, 97, 103, 101, 47, 106, 112, 103]
}

/// The format a data URL header names: PNG first, then JPEG under either
/// of its two media-type spellings.
pub open spec fn header_format(header: Seq<u8>) -> Option<ImageFormat> {
    if has_run(header, png_mark()) {
        Some(ImageFormat::Png)
    } else if has_run(header, jpeg_mark()) || has_run(header, jpg_mark()) {
        Some(ImageFormat::Jpeg)
    } else {
        None
    }
}

/// `k` is the position of the one and only comma in `s`.
pub open spec fn sole_comma_at(s: Seq<u8>, k: int) -> bool {
    &&& 0 <= k < s.len()
    &&& s[k] == COMMA
    &&& forall|i: int| 0 <= i < s.len() && i != k ==> s[i] != COMMA
}

/// The meaning of a data URL `header,payload`: the format its header names
/// and the bytes its base64 payload decodes to.
pub open spec fn data_url_image(s: Seq<u8>) -> Result<(ImageFormat, Seq<u8>), ImageError> {
    if exists|k: int| sole_comma_at(s, k) {
        let k = choose|k: int| sole_comma_at(s, k);
        match header_format(s.take(k)) {
            None => Err(ImageError::UnsupportedType),
            Some(f) => match base64_standard_decode(s.skip(k + 1)) {
                None => Err(ImageError::InvalidBase64),
                Some(b) => Ok((f, b)),
            },
        }
    } else {
        Err(ImageError::InvalidFormat)
    }
}

/// Whether `needle` occurs in `hay[..end]`.
fn find_run(hay: &[u8], end: usize, needle: &[u8]) -> (r: bool)
    requires
        end <= hay@.len(),
    ensures
        r == has_run(hay@.take(end as int), needle@),
{
    let ghost h = hay@.take(end as int);
    if needle.len() > end {
        return false;
    }
    let last = end - needle.len();
    let mut i: usize = 0;
    while i <= last
        invariant
            last + needle@.len() == end,
            end <= hay@.len(),
            h == hay@.take(end as int),
            forall|p: int| 0 <= p < i ==> #[trigger] h.subrange(p, p + needle@.len()) != needle@,
        decreases last + 1 - i,
    {
        let mut j: usize = 0;
        let mut same = true;
        while j < needle.len() && same
            invariant
                i <= last,
                last + needle@.len() == end,
                end <= hay@.len(),
                j <= needle@.len(),
                same ==> forall|q: int| 0 <= q < j ==> hay@[i + q] == needle@[q],
                !same ==> hay@[i + j - 1] != needle@[j - 1] && 1 <= j,
            decreases needle@.len() - j + (if same { 1int } else { 0int }),
        {
            if hay[i + j] != needle[j] {
                same = false;
            }
            j = j + 1;
        }
        if same {
            assert(h.subrange(i as int, i + needle@.len()) =~= needle@);
            return true;
        }
        assert(h.subrange(i as int, i + needle@.len())[j - 1] != needle@[j - 1]);
        i = i + 1;
    }
    assert forall|p: int| 0 <= p && p + needle@.len() <= h.len() implies #[trigger] h.subrange(p, p + needle@.len())
        != needle@ by {
        assert(p < i);
    }
    false
}

/// The format named by `hay[..end]`.
fn format_in(hay: &[u8], end: usize) -> (r: Option<ImageFormat>)
    requires
        end <= hay@.len(),
    ensures
        r == header_format(hay@.take(end as int)),
{
    let png: [u8; 9] = [105, 109, 97, 103, 101, 47, 112, 110, 103];
    let jpeg: [u8; 10] = [105, 109, 97, 103, 101, 47, 106, 112, 101, 103];
    let jpg: [u8; 9] = [105, 109, 97, 103, 101, 47, 106, 112, 103];
    assert(png@ =~= png_mark());
    assert(jpeg@ =~= jpeg_mark());
    assert(jpg@ =~= jpg_mark());
    if find_run(hay, end, &png) {
        Some(ImageFormat::Png)
    } else if find_run(hay, end, &jpeg) || find_run(hay, end, &jpg) {
        Some(ImageFormat::Jpeg)
    } else {
        None
    }
}

/// Takes the image out of a data URL such as `data:image/png;base64,iVBO...`.
///
/// The URL must hold exactly one comma; the header before it must name PNG
/// or JPEG, and the payload after it must be standard base64.
pub fn decode_data_url(data: &str) -> (r: Result<DecodedImage, ImageError>)
    ensures
        match r {
            Ok(img) => data_url_image(data.spec_bytes()) == Ok::<(ImageFormat, Seq<u8>), ImageError>(
                (img.format, img.bytes@),
            ),
            Err(e) => data_url_image(data.spec_bytes()) == Err::<(ImageFormat, Seq<u8>), ImageError>(e),
        },
{
    let bytes = data.as_bytes();
    let ghost s = bytes@;
    let n = bytes.len();
    let mut k: usize = 0;
    let mut found = false;
    let mut i: usize = 0;
    while i < n
        invariant
            n == s.len(),
            s == bytes@,
            s == data.spec_bytes(),
            i <= n,
            found ==> k < i && s[k as int] == COMMA,
            forall|p: int| 0 <= p < i && (!found || p != k) ==> s[p] != COMMA,
        decreases n - i,
    {
        if bytes[i] == COMMA {
            if found {
                assert forall|c: int| !sole_comma_at(s, c) by {
                    if sole_comma_at(s, c) {
                        assert(c == k as int);
                        assert(c == i as int);
                    }
                }
                return Err(ImageError::InvalidFormat);
            }
            found = true;
            k = i;
        }
        i = i + 1;
    }
    if !found {
        assert forall|c: int| !sole_comma_at(s, c) by {
            if 0 <= c < s.len() {
                assert(s[c] != COMMA);
            }
        }
        return Err(ImageError::InvalidFormat);
    }
    assert(sole_comma_at(s, k as int));
    let ghost c = choose|c: int| sole_comma_at(s, c);
    assert(c == k as int);
    let format = match format_in(bytes, k) {
        None => {
            return Err(ImageError::UnsupportedType);
        },
        Some(f) => f,
    };
    let mut payload: Vec<u8> = Vec::new();
    let mut j: usize = k + 1;
    while j < n
        invariant
            n == s.len(),
            s == bytes@,
            s == data.spec_bytes(),
            k < n,
            k + 1 <= j <= n,
            payload@ == s.subrange(k + 1, j as int),
        decreases n - j,
    {
        payload.push(bytes[j]);
        j = j + 1;
    }
    assert(payload@ =~= s.skip(k + 1));
    match decode_base64(payload.as_slice()) {
        None => Err(ImageError::InvalidBase64),
        Some(decoded) => Ok(DecodedImage { format, bytes: decoded }),
    }
}

} // verus!
