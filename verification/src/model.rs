use vstd::prelude::*;

use crate::config::opt_view;
use crate::models::StoredModelSettings;
use crate::text::{
    chars_of, join_chars, join_spec, push_str, string_of, trim_chars, trim_end_char, trim_spec,
    trim_str, views_of,
};

verus! {

/// The chat completions endpoint under `base_url`, whatever trailing slashes it has.
pub open spec fn completion_url_spec(base_url: Seq<char>) -> Seq<char> {
    trim_end_char(base_url, '/') + "/chat/completions"@
}

pub fn completion_url(base_url: &str) -> (r: String)
    ensures
        r@ == completion_url_spec(base_url@),
{
    let v = chars_of(base_url);
    let mut n = v.len();
    assert(v@.take(n as int) =~= v@);
    while n > 0 && v[n - 1] == '/'
        invariant
            n <= v@.len(),
            trim_end_char(v@, '/') == trim_end_char(v@.take(n as int), '/'),
        decreases n,
    {
        assert(v@.take(n as int).drop_last() =~= v@.take(n - 1));
        n = n - 1;
    }
    let mut out: Vec<char> = Vec::new();
    let mut i: usize = 0;
    while i < n
        invariant
            n <= v@.len(),
            i <= n,
            out@ == v@.take(i as int),
        decreases n - i,
    {
        out.push(v[i]);
        assert(v@.take(i + 1) =~= v@.take(i as int).push(v@[i as int]));
        i = i + 1;
    }
    assert(trim_end_char(v@.take(n as int), '/') == v@.take(n as int));
    push_str(&mut out, "/chat/completions");
    string_of(out.as_slice())
}

/// The `content` of a chat completion message, as far as text is concerned.
pub enum MessageContent {
    /// A plain string.
    Text(String),
    /// An array of parts, with the `text` string of each part where it has one.
    Parts(Vec<Option<String>>),
    /// Any other JSON value.
    Other,
}

/// The text of some parts, joined by newlines.
pub open spec fn present_texts(parts: Seq<Option<String>>) -> Seq<Seq<char>>
    decreases parts.len(),
{
    if parts.len() == 0 {
        Seq::empty()
    } else {
        match parts.last() {
            Some(t) => present_texts(parts.drop_last()).push(t@),
            None => present_texts(parts.drop_last()),
        }
    }
}

/// The text of a message content: a string trimmed, or the parts' texts joined
/// by newlines and trimmed when that is not empty.
pub open spec fn content_text_spec(content: Option<MessageContent>) -> Option<Seq<char>> {
    match content {
        Some(MessageContent::Text(t)) => Some(trim_spec(t@)),
        Some(MessageContent::Parts(parts)) => {
            let t = trim_spec(join_spec(present_texts(parts@), "\n"@));
            if t.len() == 0 {
                None
            } else {
                Some(t)
            }
        },
        _ => None,
    }
}

pub fn extract_text_from_content(content: Option<&MessageContent>) -> (r: Option<String>)
    ensures
        opt_view(r) == content_text_spec(match content {
            Some(c) => Some(*c),
            None => None,
        }),
{
    match content {
        Some(MessageContent::Text(text)) => Some(trim_str(text.as_str())),
        Some(MessageContent::Parts(parts)) => {
            let mut texts: Vec<Vec<char>> = Vec::new();
            let mut i: usize = 0;
            while i < parts.len()
                invariant
                    i <= parts@.len(),
                    views_of(texts@) == present_texts(parts@.take(i as int)),
                decreases parts@.len() - i,
            {
                assert(parts@.take(i + 1).drop_last() =~= parts@.take(i as int));
                match &parts[i] {
                    Some(t) => {
                        let ghost before = views_of(texts@);
                        texts.push(chars_of(t.as_str()));
                        assert(views_of(texts@) =~= before.push(t@));
                    },
                    None => {},
                }
                i = i + 1;
            }
            assert(parts@.take(parts@.len() as int) =~= parts@);
            let joined = join_chars(&texts, "\n");
            let trimmed = trim_chars(joined.as_slice());
            if trimmed.len() == 0 {
                None
            } else {
                Some(string_of(trimmed.as_slice()))
            }
        },
        _ => None,
    }
}

/// The first choice's message of a chat completion response, by its content;
/// `None` when the response has no such message.
pub struct ResponseMessage {
    pub content: Option<MessageContent>,
}

/// The text of a chat completion response's first message.
pub fn extract_text_from_response_message(message: Option<&ResponseMessage>) -> (r: Option<String>)
    ensures
        opt_view(r) == match message {
            Some(m) => content_text_spec(m.content),
            None => None,
        },
{
    match message {
        Some(m) => match &m.content {
            Some(c) => extract_text_from_content(Some(c)),
            None => extract_text_from_content(None),
        },
        None => None,
    }
}

/// The character of a Base64 digit in the standard alphabet.
pub open spec fn base64_digit(v: int) -> char {
    if v < 26 {
        (65 + v) as char
    } else if v < 52 {
        (97 + v - 26) as char
    } else if v < 62 {
        (48 + v - 52) as char
    } else if v == 62 {
        '+'
    } else {
        '/'
    }
}

/// The standard Base64 encoding of `bytes`: each three bytes become four
/// digits, and a last group of one or two bytes is padded with `=`.
pub open spec fn base64_standard(bytes: Seq<u8>) -> Seq<char>
    decreases bytes.len(),
{
    if bytes.len() == 0 {
        Seq::empty()
    } else if bytes.len() == 1 {
        let a = bytes[0] as int;
        seq![base64_digit(a / 4), base64_digit((a % 4) * 16), '=', '=']
    } else if bytes.len() == 2 {
        let a = bytes[0] as int;
        let b = bytes[1] as int;
        seq![base64_digit(a / 4), base64_digit((a % 4) * 16 + b / 16), base64_digit((b % 16) * 4), '=']
    } else {
        let a = bytes[0] as int;
        let b = bytes[1] as int;
        let c = bytes[2] as int;
        seq![
            base64_digit(a / 4),
            base64_digit((a % 4) * 16 + b / 16),
            base64_digit((b % 16) * 4 + c / 64),
            base64_digit(c % 64),
        ] + base64_standard(bytes.skip(3))
    }
}

/// Encodes with `base64::engine::general_purpose::STANDARD` (`Engine::encode`):
/// the standard alphabet, with padding.
#[verifier::external_body]
fn encode_base64(bytes: &[u8]) -> (r: String)
    ensures
        r@ == base64_standard(bytes@),
{
    base64::Engine::encode(&base64::engine::general_purpose::STANDARD, bytes)
}

/// The prompt sent with an image to be described.
pub const IMAGE_PROMPT: &'static str = "Describe this image for knowledge graph indexing. Return a compact paragraph containing the main scene, any visible text, and notable objects.";

/// What is sent to describe an image.
pub struct ImageRequest {
    /// The endpoint.
    pub url: String,
    /// The bearer token.
    pub api_key: String,
    /// The model to ask.
    pub model: String,
    /// The image as a `data:` URL.
    pub data_url: String,
}

/// Why an image could not be described.
pub enum ModelError {
    /// No API key is configured.
    MissingApiKey,
    /// The endpoint answered with a failure status.
    RequestFailed { status: String, body: String },
    /// The answer held no text.
    NoText,
}

/// The `data:` URL of an image.
pub open spec fn data_url_spec(content_type: Seq<char>, bytes: Seq<u8>) -> Seq<char> {
    "data:"@ + content_type + ";base64,"@ + base64_standard(bytes)
}

/// The request that describes an image with the configured model; an API key
/// is required.
pub fn image_description_request(
    settings: &StoredModelSettings,
    content_type: &str,
    bytes: &[u8],
) -> (r: Result<ImageRequest, ModelError>)
    ensures
        settings.api_key is None <==> r matches Err(ModelError::MissingApiKey),
        settings.api_key is Some <==> r is Ok,
        r matches Ok(q) ==> {
            &&& q.url@ == completion_url_spec(settings.base_url@)
            &&& Some(q.api_key@) == opt_view(settings.api_key)
            &&& q.model@ == settings.model@
            &&& q.data_url@ == data_url_spec(content_type@, bytes@)
        },
{
    let api_key = match &settings.api_key {
        Some(k) => k.clone(),
        None => return Err(ModelError::MissingApiKey),
    };
    let mut data: Vec<char> = Vec::new();
    push_str(&mut data, "data:");
    push_str(&mut data, content_type);
    push_str(&mut data, ";base64,");
    push_str(&mut data, encode_base64(bytes).as_str());
    Ok(ImageRequest {
        url: completion_url(settings.base_url.as_str()),
        api_key,
        model: settings.model.clone(),
        data_url: string_of(data.as_slice()),
    })
}

/// The description an image request yields: a failure status is an error
/// carrying status and body; otherwise the text of the first message, which
/// must be there.
pub fn image_description_from_response(
    success: bool,
    status: String,
    body: String,
    message: Option<&ResponseMessage>,
) -> (r: Result<String, ModelError>)
    ensures
        !success ==> (r matches Err(ModelError::RequestFailed { status: s, body: b }) && s@ == status@
            && b@ == body@),
        success ==> match (r, message) {
            (Ok(t), Some(m)) => content_text_spec(m.content) == Some(t@),
            (Err(ModelError::NoText), Some(m)) => content_text_spec(m.content) is None,
            (Err(ModelError::NoText), None) => true,
            _ => false,
        },
{
    if !success {
        return Err(ModelError::RequestFailed { status, body });
    }
    match extract_text_from_response_message(message) {
        Some(t) => Ok(t),
        None => Err(ModelError::NoText),
    }
}

} // verus!
