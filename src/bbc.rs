use crate::fetch::FetchError;
use crate::hls::HlsError;
use crate::text::push_str;
use vstd::prelude::*;

verus! {

/// Why a request about a programme or an episode failed.
#[derive(Clone, Debug)]
pub enum BbcResponseError {
    NotFound,
    ServerResponseError(u16),
    /// The upstream answer was not understood.
    FormatError,
    /// The episode's media is of a kind this service cannot relay: its pid and
    /// what was found.
    UnsupportedMedia(String, String),
    IOError(String),
    FetchError(FetchError),
    HlsDownloadError(HlsError),
}

impl From<FetchError> for BbcResponseError {
    fn from(err: FetchError) -> Self {
        match err {
            FetchError::ResponseCode(code) => {
                if code == 404 {
                    BbcResponseError::NotFound
                } else {
                    BbcResponseError::ServerResponseError(code)
                }
            },
            FetchError::ReqwestError(message) => BbcResponseError::FetchError(
                FetchError::ReqwestError(message),
            ),
        }
    }
}

impl vstd::std_specs::convert::FromSpecImpl<FetchError> for BbcResponseError {
    open spec fn obeys_from_spec() -> bool {
        true
    }

    /// A 404 is "not found", another status a server error; a failed request
    /// stays what it was.
    open spec fn from_spec(err: FetchError) -> BbcResponseError {
        match err {
            FetchError::ResponseCode(code) => if code == 404 {
                BbcResponseError::NotFound
            } else {
                BbcResponseError::ServerResponseError(code)
            },
            FetchError::ReqwestError(message) => BbcResponseError::FetchError(
                FetchError::ReqwestError(message),
            ),
        }
    }
}

#[derive(Clone, Debug)]
pub struct Synopses {
    pub medium: Option<String>,
    pub long: Option<String>,
    pub short: Option<String>,
}

#[derive(Clone, Debug)]
pub struct Titles {
    pub primary: String,
    pub secondary: Option<String>,
}

/// A length in seconds.
#[derive(Clone, Debug)]
pub struct Duration {
    pub value: u64,
}

#[derive(Clone, Debug)]
pub struct Release {
    pub date: String,
}

#[derive(Clone, Debug)]
pub struct QualityVariant {
    pub file_url: Option<String>,
    pub file_size: Option<u64>,
}

#[derive(Clone, Debug)]
pub struct QualityVariants {
    pub low: Option<QualityVariant>,
    pub medium: Option<QualityVariant>,
    pub high: Option<QualityVariant>,
}

#[derive(Clone, Debug)]
pub struct Download {
    /// The `type` field of the upstream record.
    pub download_type: String,
    pub quality_variants: QualityVariants,
}

#[derive(Clone, Debug)]
pub struct Network {
    pub short_title: String,
}

/// A programme, as its container record describes it.
#[derive(Clone, Debug)]
pub struct ContainerItemData {
    pub id: String,
    pub titles: Titles,
    pub synopses: Synopses,
    pub network: Network,
    pub image_url: Option<String>,
}

/// An episode, as a container list describes it.
#[derive(Clone, Debug)]
pub struct ContainerListData {
    pub id: String,
    pub titles: Titles,
    pub synopses: Synopses,
    pub duration: Duration,
    pub release: Release,
    pub download: Download,
    pub image_url: Option<String>,
}

#[derive(Clone, Debug)]
pub struct ContainerList {
    pub data: Vec<ContainerListData>,
}

#[derive(Clone, Debug)]
pub struct ContainerItem {
    pub data: ContainerItemData,
}

/// One record of a container response: the programme, or its episodes.
#[derive(Clone, Debug)]
pub enum Container {
    ContainerItem(ContainerItem),
    ContainerList(ContainerList),
}

impl Container {
    /// The programme record, if this is one.
    pub fn item(&self) -> (r: Option<&ContainerItem>)
        ensures
            match self {
                Container::ContainerItem(i) => r == Some(i),
                Container::ContainerList(_) => r is None,
            },
    {
        match self {
            Container::ContainerItem(item) => Some(item),
            _ => None,
        }
    }

    /// The episode list, if this is one.
    pub fn list(&self) -> (r: Option<&ContainerList>)
        ensures
            match self {
                Container::ContainerList(l) => r == Some(l),
                Container::ContainerItem(_) => r is None,
            },
    {
        match self {
            Container::ContainerList(list) => Some(list),
            _ => None,
        }
    }
}

#[derive(Clone, Debug)]
pub struct ContainerResponse {
    pub data: Vec<Container>,
}

/// A way to fetch a media stream.
#[derive(Clone, Debug)]
pub struct Connection {
    pub protocol: String,
    pub href: String,
    pub transfer_format: String,
}

/// One media stream of an episode.
#[derive(Clone, Debug)]
pub struct Media {
    pub kind: String,
    /// The `type` field of the upstream record.
    pub media_type: String,
    pub bitrate: String,
    pub encoding: String,
    pub connection: Vec<Connection>,
}

#[derive(Clone, Debug)]
pub struct MediaList {
    pub media: Vec<Media>,
}

/// What percent-encoding with `NON_ALPHANUMERIC` makes of `s`.
pub uninterp spec fn percent_encoded(s: Seq<char>) -> Seq<char>;

/// Relies on percent_encoding's `utf8_percent_encode` with `NON_ALPHANUMERIC`:
/// every byte of the text but ASCII letters and digits as `%XX`; the result
/// depends on the text alone.
#[verifier::external_body]
fn percent_encode(s: &str) -> (r: String)
    ensures
        r@ == percent_encoded(s@),
{
    percent_encoding::utf8_percent_encode(s, percent_encoding::NON_ALPHANUMERIC).to_string()
}

/// Joins two texts.
fn join(a: &str, b: &str) -> (r: String)
    ensures
        r@ == a@ + b@,
{
    let mut s = a.to_owned();
    push_str(&mut s, b);
    s
}

/// The URN of a radio series.
pub fn series_urn(programme_id: &str) -> (r: String)
    ensures
        r@ == "urn:bbc:radio:series:"@ + programme_id@,
{
    join("urn:bbc:radio:series:", programme_id)
}

/// Where the container record of a URN is fetched.
pub fn container_uri(urn: &str) -> (r: String)
    ensures
        r@ == "https://rms.api.bbc.co.uk/v2/experience/inline/container/"@ + percent_encoded(urn@),
{
    let encoded = percent_encode(urn);
    join("https://rms.api.bbc.co.uk/v2/experience/inline/container/", encoded.as_str())
}

/// Where the media list of an episode is fetched.
pub fn media_uri(pid: &str) -> (r: String)
    ensures
        r@
            == "https://open.live.bbc.co.uk/mediaselector/6/select/version/2.0/format/json/mediaset/mobile-phone-main/vpid/"@
            + percent_encoded(pid@) + "/transferformat/hls/"@,
{
    let encoded = percent_encode(pid);
    let mut uri = join(
        "https://open.live.bbc.co.uk/mediaselector/6/select/version/2.0/format/json/mediaset/mobile-phone-main/vpid/",
        encoded.as_str(),
    );
    push_str(&mut uri, "/transferformat/hls/");
    uri
}

/// Where an episode that is public can be downloaded, if it is.
pub fn media_download_uri(pid: &str) -> (r: String)
    ensures
        r@
            == "https://open.live.bbc.co.uk/mediaselector/6/redir/version/2.0/mediaset/audio-nondrm-download/proto/https/vpid/"@
            + pid@ + ".mp3"@,
{
    let mut uri = join(
        "https://open.live.bbc.co.uk/mediaselector/6/redir/version/2.0/mediaset/audio-nondrm-download/proto/https/vpid/",
        pid,
    );
    push_str(&mut uri, ".mp3");
    uri
}

/// The download URL of a public episode: the probe's status must be 200.
pub fn media_url_for_status(uri: String, status: u16) -> (r: Option<String>)
    ensures
        status == 200 ==> r == Some(uri),
        status != 200 ==> r is None,
{
    if status == 200 {
        Some(uri)
    } else {
        None
    }
}

} // verus!
