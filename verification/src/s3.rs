//! S3-compatible remote object store.
//!
//! Backblaze B2, MinIO, AWS S3, or another compatible service is selected
//! entirely through configuration. This module holds what the store decides: the
//! configuration it accepts, the keys it uses, and what each reply of the service
//! comes to. Sending the requests is left to the caller.

use vstd::prelude::*;
use vstd::string::*;

use crate::cid;
use crate::cid::Cid;
use crate::layout;
use crate::manifest;
use crate::provenance;
use crate::provenance::{Provenance, ProvenanceView};
use crate::store;
use crate::store::{Entry, EntryView, StoreError, StoreErrorView, StoreResult};
use crate::text;

verus! {

/// A client for one bucket.
#[verifier::external_type_specification]
#[verifier::external_body]
pub struct ExAmazonS3(object_store::aws::AmazonS3);

/// What `object_store` reports of a request or a configuration that failed.
#[verifier::external_type_specification]
#[verifier::external_body]
pub struct ExObjectStoreError(object_store::Error);

/// A span of time.
#[derive(Debug, Clone, Copy, PartialEq, Eq, Structural)]
pub struct Timeout {
    seconds: u64,
    nanoseconds: u32,
}

impl Timeout {
    /// Whole seconds.
    pub closed spec fn spec_seconds(&self) -> u64 {
        self.seconds
    }

    /// What is left of a second.
    pub closed spec fn spec_nanoseconds(&self) -> u32 {
        self.nanoseconds
    }

    /// The part below a second is below a second.
    #[verifier::type_invariant]
    closed spec fn normal(&self) -> bool {
        self.nanoseconds < 1_000_000_000
    }

    /// A span of whole seconds and some nanoseconds.
    pub fn new(seconds: u64, nanoseconds: u32) -> (timeout: Self)
        requires
            nanoseconds < 1_000_000_000,
        ensures
            timeout.spec_seconds() == seconds,
            timeout.spec_nanoseconds() == nanoseconds,
    {
        Timeout { seconds, nanoseconds }
    }

    /// Whole seconds.
    pub fn seconds(&self) -> (seconds: u64)
        ensures
            seconds == self.spec_seconds(),
    {
        self.seconds
    }

    /// What is left of a second.
    pub fn nanoseconds(&self) -> (nanoseconds: u32)
        ensures
            nanoseconds == self.spec_nanoseconds(),
            nanoseconds < 1_000_000_000,
    {
        proof {
            use_type_invariant(self);
        }
        self.nanoseconds
    }

    /// No time at all.
    pub open spec fn spec_is_zero(&self) -> bool {
        self.spec_seconds() == 0 && self.spec_nanoseconds() == 0
    }

    /// Whether the span is no time at all.
    pub fn is_zero(&self) -> (zero: bool)
        ensures
            zero == self.spec_is_zero(),
    {
        self.seconds == 0 && self.nanoseconds == 0
    }
}

/// Configuration for an S3-compatible store.
pub struct S3Config {
    /// HTTPS endpoint, without the bucket name.
    pub endpoint: String,
    /// Signing region used by the compatible service.
    pub region: String,
    /// Private bucket name.
    pub bucket: String,
    /// Application/access key identifier.
    pub access_key_id: String,
    /// Application/secret key.
    pub secret_access_key: String,
    /// Prefix reserved for this deployment.
    pub prefix: String,
    /// Maximum object accepted by this adapter.
    pub max_object_bytes: usize,
    /// Timeout applied independently to every provider call.
    pub request_timeout: Timeout,
    /// Total attempts for transient provider or transport failures.
    pub max_attempts: usize,
}

impl Clone for S3Config {
    fn clone(&self) -> (copy: Self)
        ensures
            copy == *self,
    {
        S3Config {
            endpoint: self.endpoint.clone(),
            region: self.region.clone(),
            bucket: self.bucket.clone(),
            access_key_id: self.access_key_id.clone(),
            secret_access_key: self.secret_access_key.clone(),
            prefix: self.prefix.clone(),
            max_object_bytes: self.max_object_bytes,
            request_timeout: self.request_timeout,
            max_attempts: self.max_attempts,
        }
    }
}

/// What an unencrypted endpoint names before its path, query or fragment: a host,
/// perhaps with a user before it and a port behind it.
pub open spec fn http_authority(endpoint: Seq<char>) -> Seq<char> {
    let rest = endpoint.skip("http://"@.len() as int);
    text::first_piece_of(
        text::first_piece_of(text::first_piece_of(rest, '/'), '?'),
        '#',
    )
}

/// What an unencrypted endpoint names before its port.
pub open spec fn http_host(endpoint: Seq<char>) -> Seq<char> {
    text::first_piece_of(http_authority(endpoint), ':')
}

/// The endpoint is on this machine and not encrypted: it names the loopback address
/// for its host, and no user.
pub open spec fn is_loopback(endpoint: Seq<char>) -> bool {
    &&& text::has_prefix(endpoint, "http://"@)
    &&& http_host(endpoint) == "127.0.0.1"@
    &&& !http_authority(endpoint).contains('@')
}

/// Whether an endpoint is on this machine and not encrypted.
pub fn loopback(endpoint: &str) -> (local: bool)
    ensures
        local == is_loopback(endpoint@),
{
    let rest = match text::strip_prefix(endpoint, "http://") {
        Some(rest) => rest,
        None => return false,
    };
    let path_cut = text::first_piece(rest, '/');
    let query_cut = text::first_piece(path_cut.as_str(), '?');
    let authority = text::first_piece(query_cut.as_str(), '#');
    let host = text::first_piece(authority.as_str(), ':');
    text::same_text(host.as_str(), "127.0.0.1") && !text::holds(authority.as_str(), '@')
}

/// What is wrong with a configuration, if anything: traffic has to be encrypted
/// unless it stays on this machine, and nothing but the prefix may be left out.
pub open spec fn config_fault(config: S3Config) -> Option<Seq<char>> {
    if !text::has_prefix(config.endpoint@, "https://"@) && !is_loopback(config.endpoint@) {
        Some("S3 endpoint must use HTTPS (HTTP is accepted only for loopback tests)"@)
    } else if config.region@.len() == 0 || config.bucket@.len() == 0 || config.access_key_id@.len()
        == 0 || config.secret_access_key@.len() == 0 || config.max_object_bytes == 0
        || config.request_timeout.spec_is_zero() || config.max_attempts == 0 {
        Some("S3 region, bucket, credentials, size limit, and timeout are required"@)
    } else {
        None
    }
}

impl S3Config {
    /// Whether a store can be made from the configuration.
    pub fn validate(&self) -> (result: StoreResult<()>)
        ensures
            match config_fault(*self) {
                Some(fault) => store::answer_view(result) == Err::<(), _>(
                    StoreErrorView::Unavailable(fault),
                ),
                None => result is Ok,
            },
    {
        if !text::starts_with(self.endpoint.as_str(), "https://") && !loopback(
            self.endpoint.as_str(),
        ) {
            return Err(
                StoreError::Unavailable(
                    "S3 endpoint must use HTTPS (HTTP is accepted only for loopback tests)".to_owned(),
                ),
            );
        }
        if self.region.as_str().unicode_len() == 0 || self.bucket.as_str().unicode_len() == 0
            || self.access_key_id.as_str().unicode_len() == 0
            || self.secret_access_key.as_str().unicode_len() == 0 || self.max_object_bytes == 0
            || self.request_timeout.is_zero() || self.max_attempts == 0 {
            return Err(
                StoreError::Unavailable(
                    "S3 region, bucket, credentials, size limit, and timeout are required".to_owned(),
                ),
            );
        }
        Ok(())
    }

    /// How the client for the bucket is set up.
    pub fn client_settings(&self) -> (settings: ClientSettings)
        ensures
            settings.are_for(*self),
    {
        ClientSettings {
            endpoint: self.endpoint.clone(),
            region: self.region.clone(),
            bucket: self.bucket.clone(),
            access_key_id: self.access_key_id.clone(),
            secret_access_key: self.secret_access_key.clone(),
            virtual_hosted_style: false,
            allow_http: loopback(self.endpoint.as_str()),
            max_retries: self.max_attempts.saturating_sub(1),
            retry_timeout: self.request_timeout,
        }
    }
}

/// How a client is set up.
pub struct ClientSettings {
    /// Endpoint of the service.
    pub endpoint: String,
    /// Signing region.
    pub region: String,
    /// Bucket name.
    pub bucket: String,
    /// Access key identifier.
    pub access_key_id: String,
    /// Secret key.
    pub secret_access_key: String,
    /// Whether the bucket is part of the host name.
    pub virtual_hosted_style: bool,
    /// Whether requests may travel unencrypted.
    pub allow_http: bool,
    /// Attempts after the first.
    pub max_retries: usize,
    /// How long to keep retrying.
    pub retry_timeout: Timeout,
}

impl ClientSettings {
    /// The settings are those that a configuration asks for.
    pub open spec fn are_for(&self, config: S3Config) -> bool {
        &&& self.endpoint@ == config.endpoint@
        &&& self.region@ == config.region@
        &&& self.bucket@ == config.bucket@
        &&& self.access_key_id@ == config.access_key_id@
        &&& self.secret_access_key@ == config.secret_access_key@
        &&& !self.virtual_hosted_style
        &&& self.allow_http == is_loopback(config.endpoint@)
        &&& self.max_retries == if config.max_attempts == 0 {
            0
        } else {
            config.max_attempts - 1
        }
        &&& self.retry_timeout == config.request_timeout
    }
}

/// A client, and the settings it was built from.
pub struct BuiltClient {
    client: object_store::aws::AmazonS3,
    settings: ClientSettings,
}

impl BuiltClient {
    /// The client.
    pub closed spec fn spec_client(&self) -> object_store::aws::AmazonS3 {
        self.client
    }

    /// The settings it was built from.
    pub closed spec fn spec_settings(&self) -> ClientSettings {
        self.settings
    }
}

/// Builds a client with `object_store::aws::AmazonS3Builder::build`, set up as
/// `settings` says, and keeps the settings with it. Whether it can be built depends
/// on the machine too, and a client cannot be looked into, so nothing else is
/// claimed of the outcome.
#[verifier::external_body]
fn build_client(settings: ClientSettings) -> (built: Result<BuiltClient, object_store::Error>)
    requires
        settings.retry_timeout.spec_nanoseconds() < 1_000_000_000,
    ensures
        built matches Ok(built) ==> built.spec_settings() == settings,
{
    let span = settings.retry_timeout;
    let mut retry = object_store::RetryConfig::default();
    retry.max_retries = settings.max_retries;
    retry.retry_timeout = core::time::Duration::new(span.seconds, span.nanoseconds);
    let builder = object_store::aws::AmazonS3Builder::new()
        .with_bucket_name(&settings.bucket)
        .with_region(&settings.region)
        .with_endpoint(&settings.endpoint)
        .with_access_key_id(&settings.access_key_id)
        .with_secret_access_key(&settings.secret_access_key)
        .with_virtual_hosted_style_request(settings.virtual_hosted_style)
        .with_allow_http(settings.allow_http);
    Ok(BuiltClient { client: builder.with_retry(retry).build()?, settings })
}

/// Writes an error with the `Display` implementation of `object_store::Error`.
/// Nothing is claimed of the text.
#[verifier::external_body]
fn error_text(error: &object_store::Error) -> (text: String) {
    format!("{error}")
}

/// An object store backed by any S3-compatible private bucket.
pub struct S3Store {
    store: BuiltClient,
    prefix: String,
    max_object_bytes: usize,
    request_timeout: Timeout,
}

/// A reply of the service, or of the clock.
#[derive(Debug)]
pub enum Reply<T> {
    /// The request succeeded.
    Done(T),
    /// There is no such key. Holds the text of the error.
    NotFound(String),
    /// The request failed otherwise. Holds the text of the error.
    Failed(String),
    /// There was no reply in time.
    TimedOut,
}

/// What a reply comes to where a missing key is a failure like any other.
pub open spec fn answered<T>(operation: Seq<char>, reply: Reply<T>) -> Result<T, StoreErrorView> {
    match reply {
        Reply::Done(value) => Ok(value),
        Reply::NotFound(error) => Err(store::failure(operation, error@)),
        Reply::Failed(error) => Err(store::failure(operation, error@)),
        Reply::TimedOut => Err(StoreErrorView::Unavailable(operation + " timed out"@)),
    }
}

/// What a reply comes to where a missing key is a miss.
pub open spec fn looked_up<T>(operation: Seq<char>, reply: Reply<T>) -> Result<
    Option<T>,
    StoreErrorView,
> {
    if reply is NotFound {
        Ok(None)
    } else {
        match answered(operation, reply) {
            Ok(value) => Ok(Some(value)),
            Err(error) => Err(error),
        }
    }
}

/// A store answer with its error as a value of the model.
pub open spec fn error_view<T>(result: StoreResult<T>) -> Result<T, StoreErrorView> {
    match result {
        Ok(value) => Ok(value),
        Err(error) => Err(error@),
    }
}

impl<T> Reply<T> {
    /// What the reply comes to where a missing key is a failure like any other.
    pub fn answer(self, operation: &str) -> (result: StoreResult<T>)
        ensures
            error_view(result) == answered(operation@, self),
    {
        match self {
            Reply::Done(value) => Ok(value),
            Reply::NotFound(error) => Err(store::unavailable(operation, error.as_str())),
            Reply::Failed(error) => Err(store::unavailable(operation, error.as_str())),
            Reply::TimedOut => Err(
                StoreError::Unavailable(operation.to_owned().concat(" timed out")),
            ),
        }
    }

    /// What the reply comes to where a missing key is a miss.
    pub fn lookup(self, operation: &str) -> (result: StoreResult<Option<T>>)
        ensures
            error_view(result) == looked_up(operation@, self),
    {
        match self {
            Reply::NotFound(_) => Ok(None),
            other => match other.answer(operation) {
                Ok(value) => Ok(Some(value)),
                Err(error) => Err(error),
            },
        }
    }
}

/// The key of one part of an object, under the prefix if there is one.
pub open spec fn key_under(
    prefix: Seq<char>,
    kind: Seq<char>,
    cid: Seq<char>,
    suffix: Seq<char>,
) -> Seq<char> {
    if prefix.len() == 0 {
        layout::place(kind, cid, suffix)
    } else {
        prefix + "/"@ + layout::place(kind, cid, suffix)
    }
}

/// The end of a read: what it answers, and whether the object has to be removed
/// first.
pub struct ReadEnd {
    /// Whether both parts of the object have to be removed. Whether that succeeds
    /// does not change the answer.
    pub evict: bool,
    /// The answer.
    pub result: StoreResult<Option<Vec<u8>>>,
}

/// The end of a look at the metadata: what it answers, and whether the object has
/// to be removed first.
pub struct HeadEnd {
    /// Whether both parts of the object have to be removed. Whether that succeeds
    /// does not change the answer.
    pub evict: bool,
    /// The answer.
    pub result: StoreResult<Option<Entry>>,
}

/// The end of a put: what it answers, and whether the object has to be removed
/// first.
pub struct PutEnd {
    /// Whether the object has to be removed again. Whether that succeeds does not
    /// change the answer.
    pub rollback: bool,
    /// The answer.
    pub result: StoreResult<Cid>,
}

/// The reply to writing metadata, or why it could not be encoded.
pub type EntryWrite = Result<Reply<()>, String>;

/// What writing metadata comes to.
pub open spec fn entry_written(entry: EntryWrite) -> Result<(), StoreErrorView> {
    match entry {
        Err(error) => Err(store::failure("encode entry"@, error@)),
        Ok(reply) => answered("put object"@, reply),
    }
}

/// The object of a put has to be removed again: it was written, and writing its
/// metadata failed.
pub open spec fn rolls_back(object: Reply<EntryWrite>) -> bool {
    object matches Reply::Done(Ok(reply)) && !(reply is Done)
}

/// What a put answers.
pub open spec fn put_answer(cid: Seq<char>, object: Reply<EntryWrite>) -> Result<
    Seq<char>,
    StoreErrorView,
> {
    match answered("put object"@, object) {
        Err(error) => Err(error),
        Ok(entry) => match entry_written(entry) {
            Err(error) => Err(error),
            Ok(()) => Ok(cid),
        },
    }
}

/// The parts of a put, once the object is known to be small enough.
pub struct PutPlan {
    /// The key of the object.
    pub object_key: String,
    /// The key of its metadata.
    pub entry_key: String,
    /// The metadata.
    pub entry: Entry,
}

/// What bytes of an object come to: they have to be few enough and the content of
/// the name.
pub open spec fn body_checked(limit: usize, cid: Seq<char>, content: Seq<u8>) -> Result<
    Option<Seq<u8>>,
    StoreErrorView,
> {
    if content.len() <= limit && cid::cid_of(content) == cid {
        Ok(Some(content))
    } else {
        Err(
            StoreErrorView::Integrity {
                cid,
                detail: "content is "@ + text::decimal_text(content.len())
                    + " bytes and hashes to "@ + cid::cid_of(content),
            },
        )
    }
}

/// What a read comes to: the reply to the request, and in it the reply to reading
/// the body.
pub open spec fn object_read(limit: usize, cid: Seq<char>, reply: Reply<Reply<Vec<u8>>>) -> Result<
    Option<Seq<u8>>,
    StoreErrorView,
> {
    match looked_up("get object"@, reply) {
        Err(error) => Err(error),
        Ok(None) => Ok(None),
        Ok(Some(body)) => match answered("read object body"@, body) {
            Err(error) => Err(error),
            Ok(content) => body_checked(limit, cid, content@),
        },
    }
}

/// An integrity failure.
pub open spec fn is_corrupt<T>(result: Result<T, StoreErrorView>) -> bool {
    result matches Err(StoreErrorView::Integrity { .. })
}

/// What metadata comes to: it has to be readable, to describe the object that was
/// asked for, and to be sound.
pub open spec fn entry_checked(cid: Seq<char>, decoded: Result<Entry, String>) -> Result<
    Option<EntryView>,
    StoreErrorView,
> {
    match decoded {
        Err(error) => Err(
            StoreErrorView::Integrity { cid, detail: "entry metadata is corrupt: "@ + error@ },
        ),
        Ok(entry) => if entry@.manifest.cid == cid && manifest::validated(entry@.manifest) is Ok {
            Ok(Some(entry@))
        } else {
            Err(
                StoreErrorView::Integrity {
                    cid,
                    detail: "entry metadata does not describe the requested CID"@,
                },
            )
        },
    }
}

/// What a look at the metadata comes to: the reply to the request, in it the
/// reply to reading the body, and in that the decoded metadata.
pub open spec fn entry_read(cid: Seq<char>, reply: Reply<Reply<Result<Entry, String>>>) -> Result<
    Option<EntryView>,
    StoreErrorView,
> {
    match looked_up("get entry"@, reply) {
        Err(error) => Err(error),
        Ok(None) => Ok(None),
        Ok(Some(body)) => match answered("read entry body"@, body) {
            Err(error) => Err(error),
            Ok(decoded) => entry_checked(cid, decoded),
        },
    }
}

/// The metadata that a reply holds, if any.
pub open spec fn entry_in(reply: Reply<Reply<Result<Entry, String>>>) -> Option<Entry> {
    match reply {
        Reply::Done(Reply::Done(Ok(entry))) => Some(entry),
        _ => None,
    }
}

/// What a deletion comes to: a key that is not there is as good as deleted.
pub open spec fn deleted(reply: Reply<()>) -> Result<(), StoreErrorView> {
    if reply is NotFound {
        Ok(())
    } else {
        answered("delete object"@, reply)
    }
}

/// What removing both parts comes to: the first failure, if any.
pub open spec fn removed(object: Reply<()>, entry: Reply<()>) -> Result<(), StoreErrorView> {
    match deleted(object) {
        Err(error) => Err(error),
        Ok(()) => deleted(entry),
    }
}

/// What looking for an object comes to.
pub open spec fn present(reply: Reply<()>) -> Result<bool, StoreErrorView> {
    match looked_up("head object"@, reply) {
        Err(error) => Err(error),
        Ok(found) => Ok(found is Some),
    }
}

/// What is wrong with a rebuild, if anything.
pub open spec fn rebuild_fault(cid: Seq<char>, reproduced: Seq<u8>) -> Option<StoreErrorView> {
    if cid::cid_of(reproduced) == cid {
        None
    } else {
        Some(
            StoreErrorView::Integrity {
                cid,
                detail: "trusted rebuild hashes to "@ + cid::cid_of(reproduced),
            },
        )
    }
}

impl S3Store {
    /// The prefix of every key.
    pub closed spec fn spec_prefix(&self) -> Seq<char> {
        self.prefix@
    }

    /// Maximum object accepted.
    pub closed spec fn spec_max_object_bytes(&self) -> usize {
        self.max_object_bytes
    }

    /// Timeout of every request.
    pub closed spec fn spec_request_timeout(&self) -> Timeout {
        self.request_timeout
    }

    /// The client that requests are sent with.
    pub closed spec fn spec_client(&self) -> BuiltClient {
        self.store
    }

    /// The store has the limits that a configuration asks for.
    pub open spec fn configured(&self, config: S3Config) -> bool {
        &&& self.spec_prefix() == text::trimmed(config.prefix@, '/')
        &&& self.spec_max_object_bytes() == config.max_object_bytes
        &&& self.spec_request_timeout() == config.request_timeout
    }

    /// Construct an adapter from explicit configuration.
    ///
    /// A configuration at fault is refused. One that is not is refused only where
    /// no client can be built from it, which is left open here.
    pub fn new(config: S3Config) -> (result: StoreResult<Self>)
        ensures
            match config_fault(config) {
                Some(fault) => result matches Err(error) && error@ == StoreErrorView::Unavailable(
                    fault,
                ),
                None => match result {
                    Ok(store) => store.configured(config)
                        && store.spec_client().spec_settings().are_for(config),
                    Err(error) => exists|text: Seq<char>|
                        error@ == #[trigger] store::failure("S3 client"@, text),
                },
            },
    {
        if let Err(error) = config.validate() {
            return Err(error);
        }
        let settings = config.client_settings();
        proof {
            use_type_invariant(&settings.retry_timeout);
        }
        let client = match build_client(settings) {
            Ok(client) => Ok(client),
            Err(error) => Err(error_text(&error)),
        };
        Self::with_client(config, client)
    }

    /// The adapter for a client that was built, or not, from a configuration that
    /// is not at fault.
    pub fn with_client(
        config: S3Config,
        client: Result<BuiltClient, String>,
    ) -> (result: StoreResult<Self>)
        ensures
            match client {
                Ok(client) => result matches Ok(store) && store.configured(config)
                    && store.spec_client() == client,
                Err(text) => result matches Err(error) && error@ == store::failure(
                    "S3 client"@,
                    text@,
                ),
            },
    {
        match client {
            Err(error) => Err(store::unavailable("S3 client", error.as_str())),
            Ok(store) => Ok(
                S3Store {
                    store,
                    prefix: text::trim(config.prefix.as_str(), '/').to_owned(),
                    max_object_bytes: config.max_object_bytes,
                    request_timeout: config.request_timeout,
                },
            ),
        }
    }

    /// The client, for sending requests.
    pub fn client(&self) -> (client: &object_store::aws::AmazonS3)
        ensures
            *client == self.spec_client().spec_client(),
    {
        &self.store.client
    }

    /// Timeout of every request.
    pub fn request_timeout(&self) -> (timeout: Timeout)
        ensures
            timeout == self.spec_request_timeout(),
    {
        self.request_timeout
    }

    /// Stable identifier, for diagnostics and metrics.
    pub fn id(&self) -> (id: &'static str)
        ensures
            id@ == "s3"@,
    {
        "s3"
    }

    /// The key of one part of an object.
    pub fn key(&self, kind: &str, cid: &Cid, suffix: &str) -> (key: String)
        ensures
            key@ == key_under(self.spec_prefix(), kind@, cid@, suffix@),
    {
        let path = layout::place_of(kind, cid, suffix);
        if self.prefix.as_str().unicode_len() == 0 {
            path
        } else {
            self.prefix.clone().concat("/").concat(path.as_str())
        }
    }

    /// The key of an object.
    pub fn object_key(&self, cid: &Cid) -> (key: String)
        ensures
            key@ == key_under(self.spec_prefix(), "objects"@, cid@, ""@),
    {
        self.key("objects", cid, "")
    }

    /// The key of an object's metadata.
    pub fn entry_key(&self, cid: &Cid) -> (key: String)
        ensures
            key@ == key_under(self.spec_prefix(), "entries"@, cid@, ".json"@),
    {
        self.key("entries", cid, ".json")
    }

    /// Plan a put: refuse what is too large, and name what is not.
    pub fn plan_put(&self, content: &[u8], provenance: Provenance) -> (plan: StoreResult<PutPlan>)
        ensures
            match plan {
                Ok(plan) => {
                    &&& content@.len() <= self.spec_max_object_bytes()
                    &&& plan.entry@ == store::entry_of(content@, provenance@)
                    &&& plan.object_key@ == key_under(
                        self.spec_prefix(),
                        "objects"@,
                        cid::cid_of(content@),
                        ""@,
                    )
                    &&& plan.entry_key@ == key_under(
                        self.spec_prefix(),
                        "entries"@,
                        cid::cid_of(content@),
                        ".json"@,
                    )
                },
                Err(error) => {
                    &&& content@.len() > self.spec_max_object_bytes()
                    &&& error@ == StoreErrorView::Unavailable(
                        "object is "@ + text::decimal_text(content@.len()) + " bytes; limit is "@
                            + text::decimal_text(self.spec_max_object_bytes() as nat) + " bytes"@,
                    )
                },
            },
    {
        let length: usize = content.len();
        if length > self.max_object_bytes {
            return Err(
                StoreError::Unavailable(
                    "object is ".to_owned().concat(text::decimal(length as u64).as_str()).concat(
                        " bytes; limit is ",
                    ).concat(text::decimal(self.max_object_bytes as u64).as_str()).concat(
                        " bytes",
                    ),
                ),
            );
        }
        let entry = Entry::of(content, provenance);
        let object_key = self.object_key(&entry.manifest.cid);
        let entry_key = self.entry_key(&entry.manifest.cid);
        Ok(PutPlan { object_key, entry_key, entry })
    }

    /// End a put, given the reply to writing the object and, where that was
    /// written, the write of the metadata. Where writing the metadata failed, the
    /// object is removed again.
    pub fn end_put(cid: Cid, object: Reply<EntryWrite>) -> (end: PutEnd)
        ensures
            store::answer_view(end.result) == put_answer(cid@, object),
            end.rollback == rolls_back(object),
    {
        let entry = match object.answer("put object") {
            Err(error) => return PutEnd { rollback: false, result: Err(error) },
            Ok(entry) => entry,
        };
        let encoded = entry.is_ok();
        match Self::end_promote(entry) {
            Ok(()) => PutEnd { rollback: false, result: Ok(cid) },
            Err(error) => PutEnd { rollback: encoded, result: Err(error) },
        }
    }

    /// End a promotion, given the write of the metadata.
    pub fn end_promote(entry: EntryWrite) -> (result: StoreResult<()>)
        ensures
            store::answer_view(result) == entry_written(entry),
    {
        match entry {
            Err(error) => Err(store::unavailable("encode entry", error.as_str())),
            Ok(reply) => reply.answer("put object"),
        }
    }

    /// End a read. An object that is too large or not what its name promises is
    /// removed and reported.
    pub fn end_get(&self, cid: &Cid, reply: Reply<Reply<Vec<u8>>>) -> (end: ReadEnd)
        ensures
            store::content_view(end.result) == object_read(
                self.spec_max_object_bytes(),
                cid@,
                reply,
            ),
            end.evict == is_corrupt(store::content_view(end.result)),
    {
        let body = match reply.lookup("get object") {
            Err(error) => return ReadEnd { evict: false, result: Err(error) },
            Ok(None) => return ReadEnd { evict: false, result: Ok(None) },
            Ok(Some(body)) => body,
        };
        let content = match body.answer("read object body") {
            Err(error) => return ReadEnd { evict: false, result: Err(error) },
            Ok(content) => content,
        };
        let length: usize = content.len();
        let actual = Cid::of(content.as_slice());
        if length > self.max_object_bytes || !actual.same(cid) {
            let detail = "content is ".to_owned().concat(
                text::decimal(length as u64).as_str(),
            ).concat(" bytes and hashes to ").concat(actual.as_str());
            return ReadEnd { evict: true, result: Err(StoreError::integrity(cid, detail)) };
        }
        ReadEnd { evict: false, result: Ok(Some(content)) }
    }

    /// End a look at the metadata. Metadata that cannot be decoded, describes another
    /// object, or is unsound is removed with the object and reported.
    pub fn end_head(cid: &Cid, reply: Reply<Reply<Result<Entry, String>>>) -> (end: HeadEnd)
        requires
            entry_in(reply) matches Some(entry) ==> entry@.manifest.cid == cid@
                ==> manifest::checkable(entry@.manifest),
        ensures
            store::entry_view(end.result) == entry_read(cid@, reply),
            end.evict == is_corrupt(store::entry_view(end.result)),
    {
        let body = match reply.lookup("get entry") {
            Err(error) => return HeadEnd { evict: false, result: Err(error) },
            Ok(None) => return HeadEnd { evict: false, result: Ok(None) },
            Ok(Some(body)) => body,
        };
        let decoded = match body.answer("read entry body") {
            Err(error) => return HeadEnd { evict: false, result: Err(error) },
            Ok(decoded) => decoded,
        };
        let entry = match decoded {
            Ok(entry) => entry,
            Err(error) => return HeadEnd {
                evict: true,
                result: Err(
                    StoreError::integrity(
                        cid,
                        "entry metadata is corrupt: ".to_owned().concat(error.as_str()),
                    ),
                ),
            },
        };
        if !entry.manifest.cid.same(cid) || entry.manifest.validate().is_err() {
            return HeadEnd {
                evict: true,
                result: Err(
                    StoreError::integrity(
                        cid,
                        "entry metadata does not describe the requested CID".to_owned(),
                    ),
                ),
            };
        }
        HeadEnd { evict: false, result: Ok(Some(entry)) }
    }

    /// End looking for an object.
    pub fn end_contains(reply: Reply<()>) -> (result: StoreResult<bool>)
        ensures
            store::answer_view(result) == present(reply),
    {
        match reply.lookup("head object") {
            Ok(Some(_)) => Ok(true),
            Ok(None) => Ok(false),
            Err(error) => Err(error),
        }
    }

    /// End deleting a key.
    pub fn end_delete(reply: Reply<()>) -> (result: StoreResult<()>)
        ensures
            store::answer_view(result) == deleted(reply),
    {
        match reply {
            Reply::NotFound(_) => Ok(()),
            other => other.answer("delete object"),
        }
    }

    /// End removing both parts of an object.
    pub fn end_remove(object: Reply<()>, entry: Reply<()>) -> (result: StoreResult<()>)
        ensures
            store::answer_view(result) == removed(object, entry),
    {
        let object = Self::end_delete(object);
        let entry = Self::end_delete(entry);
        match object {
            Ok(()) => entry,
            Err(error) => Err(error),
        }
    }

    /// Check what a trusted rebuild produced. Where it is at fault, the copy that
    /// is held has to be destroyed.
    pub fn check_rebuild(cid: &Cid, reproduced: &[u8]) -> (fault: Option<StoreError>)
        ensures
            store::fault_view(fault) == rebuild_fault(cid@, reproduced@),
    {
        let actual = Cid::of(reproduced);
        if actual.same(cid) {
            return None;
        }
        Some(
            StoreError::integrity(
                cid,
                "trusted rebuild hashes to ".to_owned().concat(actual.as_str()),
            ),
        )
    }
}

/// A remote endpoint is encrypted: a configuration that is not at fault uses HTTPS,
/// or names no host but the loopback address, and no user; and plain HTTP is allowed
/// only in the latter case.
pub proof fn lemma_remote_endpoints_are_encrypted(config: S3Config)
    requires
        config_fault(config) is None,
    ensures
        text::has_prefix(config.endpoint@, "https://"@) || {
            &&& text::has_prefix(config.endpoint@, "http://"@)
            &&& http_host(config.endpoint@) == "127.0.0.1"@
            &&& !http_authority(config.endpoint@).contains('@')
        },
        text::has_prefix(config.endpoint@, "https://"@) ==> !is_loopback(config.endpoint@),
{
    reveal_strlit("https://");
    reveal_strlit("http://");
    let endpoint = config.endpoint@;
    if is_loopback(endpoint) && text::has_prefix(endpoint, "https://"@) {
        assert(endpoint.subrange(0, 8)[4] == "https://"@[4]);
        assert(endpoint.subrange(0, 7)[4] == "http://"@[4]);
    }
}

/// No two parts of objects share a key, whatever the prefix.
pub proof fn lemma_keys_are_distinct(
    prefix: Seq<char>,
    kind: Seq<char>,
    cid: Seq<char>,
    suffix: Seq<char>,
    other_kind: Seq<char>,
    other_cid: Seq<char>,
    other_suffix: Seq<char>,
)
    requires
        kind.len() == other_kind.len(),
        cid::is_cid(cid),
        cid::is_cid(other_cid),
        key_under(prefix, kind, cid, suffix) == key_under(
            prefix,
            other_kind,
            other_cid,
            other_suffix,
        ),
    ensures
        kind == other_kind,
        cid == other_cid,
        suffix == other_suffix,
{
    let left = key_under(prefix, kind, cid, suffix);
    let right = key_under(prefix, other_kind, other_cid, other_suffix);
    if prefix.len() > 0 {
        let start = (prefix + "/"@).len() as int;
        assert(left.skip(start) =~= layout::place(kind, cid, suffix));
        assert(right.skip(start) =~= layout::place(other_kind, other_cid, other_suffix));
    }
    layout::lemma_places_are_distinct(
        kind,
        cid,
        suffix,
        other_kind,
        other_cid,
        other_suffix,
    );
}

/// A read answers with content only if it is the content of the name and within
/// the limit; and content within the limit that was stored is read back.
pub proof fn lemma_remote_reads_are_verified(
    limit: usize,
    cid: Seq<char>,
    reply: Reply<Reply<Vec<u8>>>,
)
    ensures
        object_read(limit, cid, reply) matches Ok(Some(content)) ==> cid::cid_of(content) == cid
            && content.len() <= limit,
        forall|content: Vec<u8>|
            reply == Reply::Done(Reply::Done(content)) && content@.len() <= limit
                && #[trigger] cid::cid_of(content@) == cid ==> object_read(limit, cid, reply) == Ok::<
                _,
                StoreErrorView,
            >(Some(content@)),
{
}

/// Metadata that is answered describes the object that was asked for and is
/// sound; and the metadata of a put is answered as it was stored.
pub proof fn lemma_remote_metadata_is_sound(
    cid: Seq<char>,
    reply: Reply<Reply<Result<Entry, String>>>,
    content: Seq<u8>,
    provenance: ProvenanceView,
)
    requires
        content.len() <= u64::MAX,
    ensures
        entry_read(cid, reply) matches Ok(Some(entry)) ==> entry.manifest.cid == cid
            && manifest::validated(entry.manifest) is Ok,
        entry_in(reply) matches Some(entry) && entry@ == store::entry_of(content, provenance) && cid
            == cid::cid_of(content) ==> entry_read(cid, reply) == Ok::<_, StoreErrorView>(
            Some(store::entry_of(content, provenance)),
        ),
{
    manifest::lemma_built_verifies(content, None);
}

/// A removed object reads as absent, and removing it again succeeds.
pub proof fn lemma_absent_keys(limit: usize, cid: Seq<char>, first: String, second: String)
    ensures
        object_read(limit, cid, Reply::NotFound(first)) == Ok::<_, StoreErrorView>(None::<Seq<u8>>),
        entry_read(cid, Reply::NotFound(first)) == Ok::<_, StoreErrorView>(None::<EntryView>),
        present(Reply::NotFound(first)) == Ok::<_, StoreErrorView>(false),
        removed(Reply::NotFound(first), Reply::NotFound(second)) is Ok,
{
}

/// The key of an object under a prefix.
pub open spec fn object_key_under(prefix: Seq<char>, cid: Seq<char>) -> Seq<char> {
    key_under(prefix, "objects"@, cid, ""@)
}

/// The key of an object's metadata under a prefix.
pub open spec fn entry_key_under(prefix: Seq<char>, cid: Seq<char>) -> Seq<char> {
    key_under(prefix, "entries"@, cid, ".json"@)
}

/// What a bucket holds after a put, where metadata is written as `encode` says and
/// every request succeeds.
pub open spec fn bucket_after_put(
    bucket: Map<Seq<char>, Seq<u8>>,
    prefix: Seq<char>,
    content: Seq<u8>,
    provenance: ProvenanceView,
    encode: spec_fn(EntryView) -> Seq<u8>,
) -> Map<Seq<char>, Seq<u8>> {
    let cid = cid::cid_of(content);
    bucket.insert(object_key_under(prefix, cid), content).insert(
        entry_key_under(prefix, cid),
        encode(store::entry_of(content, provenance)),
    )
}

/// What a bucket holds after a put, given the replies to its writes. A write that
/// did not succeed wrote nothing, and the rollback, where there is one, succeeds.
pub open spec fn bucket_after_replies(
    bucket: Map<Seq<char>, Seq<u8>>,
    prefix: Seq<char>,
    content: Seq<u8>,
    provenance: ProvenanceView,
    encode: spec_fn(EntryView) -> Seq<u8>,
    object: Reply<EntryWrite>,
) -> Map<Seq<char>, Seq<u8>> {
    let key = object_key_under(prefix, cid::cid_of(content));
    if !(object is Done) {
        bucket
    } else if rolls_back(object) {
        bucket.insert(key, content).remove(key)
    } else if put_answer(cid::cid_of(content), object) is Ok {
        bucket_after_put(bucket, prefix, content, provenance, encode)
    } else {
        bucket.insert(key, content)
    }
}

/// What a bucket holds after an object was removed.
pub open spec fn bucket_without(
    bucket: Map<Seq<char>, Seq<u8>>,
    prefix: Seq<char>,
    cid: Seq<char>,
) -> Map<Seq<char>, Seq<u8>> {
    bucket.remove(object_key_under(prefix, cid)).remove(entry_key_under(prefix, cid))
}

/// What a promotion answers, given the reply to reading the metadata, where every
/// other request succeeds.
pub open spec fn promotion_answer(
    cid: Seq<char>,
    reproduced: Seq<u8>,
    reply: Reply<Reply<Result<Entry, String>>>,
) -> Result<(), StoreErrorView> {
    match rebuild_fault(cid, reproduced) {
        Some(fault) => Err(store::rebuild_refusal(Ok(()), fault)),
        None => match store::promotion(cid, entry_read(cid, reply)) {
            Err(error) => Err(error),
            Ok(_) => Ok(()),
        },
    }
}

/// What a bucket holds after a promotion, where metadata is written as `encode` says
/// and every other request succeeds.
pub open spec fn bucket_after_promotion(
    bucket: Map<Seq<char>, Seq<u8>>,
    prefix: Seq<char>,
    cid: Seq<char>,
    reproduced: Seq<u8>,
    reply: Reply<Reply<Result<Entry, String>>>,
    encode: spec_fn(EntryView) -> Seq<u8>,
) -> Map<Seq<char>, Seq<u8>> {
    if rebuild_fault(cid, reproduced) is Some || is_corrupt(entry_read(cid, reply)) {
        bucket_without(bucket, prefix, cid)
    } else {
        match store::promotion(cid, entry_read(cid, reply)) {
            Ok(entry) => bucket.insert(entry_key_under(prefix, cid), encode(entry)),
            Err(_) => bucket,
        }
    }
}

proof fn lemma_part_keys(prefix: Seq<char>, cid: Seq<char>, other_cid: Seq<char>)
    requires
        cid::is_cid(cid),
        cid::is_cid(other_cid),
    ensures
        object_key_under(prefix, cid) != entry_key_under(prefix, other_cid),
        object_key_under(prefix, cid) == object_key_under(prefix, other_cid) ==> cid == other_cid,
        entry_key_under(prefix, cid) == entry_key_under(prefix, other_cid) ==> cid == other_cid,
{
    reveal_strlit("objects");
    reveal_strlit("entries");
    assert("objects"@[0] == 'o' && "entries"@[0] == 'e');
    let (objects, entries) = ("objects"@, "entries"@);
    if object_key_under(prefix, cid) == entry_key_under(prefix, other_cid) {
        lemma_keys_are_distinct(prefix, objects, cid, ""@, entries, other_cid, ".json"@);
    }
    if object_key_under(prefix, cid) == object_key_under(prefix, other_cid) {
        lemma_keys_are_distinct(prefix, objects, cid, ""@, objects, other_cid, ""@);
    }
    if entry_key_under(prefix, cid) == entry_key_under(prefix, other_cid) {
        lemma_keys_are_distinct(prefix, entries, cid, ".json"@, entries, other_cid, ".json"@);
    }
}

/// What was put is there to be read, object and metadata, and what was removed is
/// gone. Either leaves the parts of every other object as they were.
pub proof fn lemma_put_and_removal_in_a_bucket(
    bucket: Map<Seq<char>, Seq<u8>>,
    prefix: Seq<char>,
    content: Seq<u8>,
    provenance: ProvenanceView,
    encode: spec_fn(EntryView) -> Seq<u8>,
    other_cid: Seq<char>,
)
    requires
        cid::is_cid(cid::cid_of(content)),
        cid::is_cid(other_cid),
        other_cid != cid::cid_of(content),
    ensures
        ({
            let cid = cid::cid_of(content);
            let object = object_key_under(prefix, cid);
            let entry = entry_key_under(prefix, cid);
            let others = set![
                object_key_under(prefix, other_cid),
                entry_key_under(prefix, other_cid),
            ];
            let put = bucket_after_put(bucket, prefix, content, provenance, encode);
            let gone = bucket_without(bucket, prefix, cid);
            &&& put.contains_key(object) && put[object] == content
            &&& put.contains_key(entry) && put[entry] == encode(
                store::entry_of(content, provenance),
            )
            &&& !gone.contains_key(object) && !gone.contains_key(entry)
            &&& put.restrict(others) == bucket.restrict(others)
            &&& gone.restrict(others) == bucket.restrict(others)
        }),
{
    let cid = cid::cid_of(content);
    lemma_part_keys(prefix, cid, other_cid);
    lemma_part_keys(prefix, other_cid, cid);
    lemma_part_keys(prefix, cid, cid);
    let others = set![object_key_under(prefix, other_cid), entry_key_under(prefix, other_cid)];
    assert(bucket_after_put(bucket, prefix, content, provenance, encode).restrict(others)
        =~= bucket.restrict(others));
    assert(bucket_without(bucket, prefix, cid).restrict(others) =~= bucket.restrict(others));
}

/// Where the object was written, writing its metadata failed and the rollback
/// succeeded, the put is answered with the failure, the bucket does not hold the
/// object, and every other key is as it was. Where nothing was written the bucket is
/// as it was, and where everything was the put is complete.
pub proof fn lemma_failed_puts_leave_no_object(
    bucket: Map<Seq<char>, Seq<u8>>,
    prefix: Seq<char>,
    content: Seq<u8>,
    provenance: ProvenanceView,
    encode: spec_fn(EntryView) -> Seq<u8>,
    object: Reply<EntryWrite>,
    other: Seq<char>,
)
    requires
        other != object_key_under(prefix, cid::cid_of(content)),
    ensures
        ({
            let cid = cid::cid_of(content);
            let after = bucket_after_replies(bucket, prefix, content, provenance, encode, object);
            &&& rolls_back(object) ==> {
                &&& put_answer(cid, object) is Err
                &&& !after.contains_key(object_key_under(prefix, cid))
                &&& after.contains_key(other) == bucket.contains_key(other)
                &&& bucket.contains_key(other) ==> after[other] == bucket[other]
            }
            &&& !(object is Done) ==> put_answer(cid, object) is Err && after == bucket
            &&& put_answer(cid, object) is Ok ==> after == bucket_after_put(
                bucket,
                prefix,
                content,
                provenance,
                encode,
            )
        }),
{
}

/// A matching rebuild rewrites the metadata of the object, with its trust promoted
/// and nothing else changed, and leaves every other key as it was, that of the
/// object's bytes among them.
pub proof fn lemma_promotion_rewrites_only_the_entry(
    bucket: Map<Seq<char>, Seq<u8>>,
    prefix: Seq<char>,
    reproduced: Seq<u8>,
    reply: Reply<Reply<Result<Entry, String>>>,
    entry: EntryView,
    encode: spec_fn(EntryView) -> Seq<u8>,
)
    requires
        cid::is_cid(cid::cid_of(reproduced)),
        entry_read(cid::cid_of(reproduced), reply) == Ok::<_, StoreErrorView>(Some(entry)),
    ensures
        ({
            let cid = cid::cid_of(reproduced);
            let after = bucket_after_promotion(bucket, prefix, cid, reproduced, reply, encode);
            let written = entry_key_under(prefix, cid);
            &&& promotion_answer(cid, reproduced, reply) is Ok
            &&& after == bucket.insert(written, encode(store::promoted_entry(entry)))
            &&& store::promoted_entry(entry).manifest == entry.manifest
            &&& provenance::judgeable(store::promoted_entry(entry).provenance.trust)
            &&& object_key_under(prefix, cid) != written
        }),
{
    lemma_part_keys(prefix, cid::cid_of(reproduced), cid::cid_of(reproduced));
}

/// A rebuild that disagrees is reported, whatever the metadata says, and destroys
/// the copy that is held.
pub proof fn lemma_mismatched_rebuild_destroys(
    bucket: Map<Seq<char>, Seq<u8>>,
    prefix: Seq<char>,
    cid: Seq<char>,
    reproduced: Seq<u8>,
    reply: Reply<Reply<Result<Entry, String>>>,
    encode: spec_fn(EntryView) -> Seq<u8>,
)
    requires
        cid::cid_of(reproduced) != cid,
    ensures
        promotion_answer(cid, reproduced, reply) matches Err(StoreErrorView::Integrity { .. }),
        bucket_after_promotion(bucket, prefix, cid, reproduced, reply, encode) == bucket_without(
            bucket,
            prefix,
            cid,
        ),
{
}

/// What is not held cannot be promoted: a matching rebuild of it is answered as on
/// every other store, and leaves the bucket as it was.
pub proof fn lemma_absent_objects_are_not_promoted(
    bucket: Map<Seq<char>, Seq<u8>>,
    prefix: Seq<char>,
    reproduced: Seq<u8>,
    error: String,
    encode: spec_fn(EntryView) -> Seq<u8>,
)
    ensures
        ({
            let cid = cid::cid_of(reproduced);
            let reply = Reply::NotFound(error);
            &&& promotion_answer(cid, reproduced, reply) == Err::<(), _>(
                StoreErrorView::Unavailable(cid + " is not held here"@),
            )
            &&& bucket_after_promotion(bucket, prefix, cid, reproduced, reply, encode) == bucket
        }),
{
}

/// A character that ends the authority of a URL.
pub open spec fn ends_authority(c: char) -> bool {
    c == '/' || c == '?' || c == '#'
}

/// The authority of an unencrypted endpoint is what stands between `http://` and the
/// first slash, question mark or hash, or the end.
pub proof fn lemma_authority(rest: Seq<char>)
    ensures
        ({
            let authority = http_authority("http://"@ + rest);
            &&& authority.len() <= rest.len()
            &&& authority == rest.take(authority.len() as int)
            &&& forall|i: int|
                0 <= i < authority.len() ==> !ends_authority(#[trigger] authority[i])
            &&& authority.len() < rest.len() ==> ends_authority(rest[authority.len() as int])
        }),
{
    text::lemma_prefix(rest, "http://"@, rest);
    let path_cut = text::first_piece_of(rest, '/');
    let query_cut = text::first_piece_of(path_cut, '?');
    let authority = text::first_piece_of(query_cut, '#');
    text::lemma_first_piece(rest, '/');
    text::lemma_first_piece(path_cut, '?');
    text::lemma_first_piece(query_cut, '#');
    assert(authority == http_authority("http://"@ + rest));
    assert(authority =~= rest.take(authority.len() as int));
    assert forall|i: int| 0 <= i < authority.len() implies !ends_authority(
        #[trigger] authority[i],
    ) by {
        assert(query_cut[i] == authority[i]);
        assert(path_cut[i] == authority[i]);
        assert(authority.contains(authority[i]));
        assert(query_cut.contains(query_cut[i]));
        assert(path_cut.contains(path_cut[i]));
    }
    if authority.len() < rest.len() {
        let n = authority.len() as int;
        if n < query_cut.len() {
            assert(query_cut[n] == path_cut[n] && path_cut[n] == rest[n]);
        } else if n < path_cut.len() {
            assert(path_cut[n] == rest[n]);
        }
    }
}

/// An endpoint is on this machine and not encrypted exactly where it is `http://`, the
/// loopback address, and then nothing or a port, a path, a query or a fragment, with no
/// user before the host: no `@` stands before the path, query or fragment.
pub proof fn lemma_loopback_endpoints(endpoint: Seq<char>, rest: Seq<char>)
    ensures
        is_loopback(endpoint) ==> {
            &&& endpoint.len() >= 16
            &&& endpoint.take(16) == "http://127.0.0.1"@
            &&& endpoint.len() > 16 ==> endpoint[16] == ':' || ends_authority(endpoint[16])
            &&& forall|i: int|
                7 <= i < endpoint.len() && #[trigger] endpoint[i] == '@' ==> exists|j: int|
                    7 <= j < i && ends_authority(#[trigger] endpoint[j])
        },
        (rest.len() == 0 || rest[0] == ':' || ends_authority(rest[0])) && (forall|i: int|
            0 <= i < rest.len() && #[trigger] rest[i] == '@' ==> exists|j: int|
                0 <= j < i && ends_authority(#[trigger] rest[j])) ==> is_loopback(
            "http://127.0.0.1"@ + rest,
        ),
{
    reveal_strlit("http://");
    reveal_strlit("127.0.0.1");
    reveal_strlit("http://127.0.0.1");
    assert("http://127.0.0.1"@ =~= "http://"@ + "127.0.0.1"@);
    if is_loopback(endpoint) {
        let tail = endpoint.skip(7);
        text::lemma_prefix(endpoint, "http://"@, tail);
        lemma_authority(tail);
        let authority = http_authority(endpoint);
        text::lemma_first_piece(authority, ':');
        let host = "127.0.0.1"@;
        assert(authority.take(9) == host);
        assert(tail.take(authority.len() as int) == authority);
        assert(endpoint.take(16) =~= "http://127.0.0.1"@) by {
            assert forall|i: int| 0 <= i < 16 implies endpoint[i] == ("http://"@ + host)[i] by {
                if i >= 7 {
                    assert(endpoint[i] == tail[i - 7]);
                    assert(tail[i - 7] == authority[i - 7]);
                    assert(authority.take(9)[i - 7] == authority[i - 7]);
                }
            }
        }
        if endpoint.len() > 16 {
            assert(endpoint[16] == tail[9]);
            if authority.len() > 9 {
                assert(tail[9] == authority[9]);
            }
        }
        assert forall|i: int| 7 <= i < endpoint.len() && #[trigger] endpoint[i] == '@' implies exists|
            j: int,
        | 7 <= j < i && ends_authority(#[trigger] endpoint[j]) by {
            assert(tail[i - 7] == '@');
            if i - 7 < authority.len() {
                assert(authority[i - 7] == '@');
            }
            let j = 7 + authority.len() as int;
            assert(j < i) by {
                if i == j {
                    assert(ends_authority(tail[i - 7]));
                }
            }
            assert(endpoint[j] == tail[j - 7]);
        }
    }
    if (rest.len() == 0 || rest[0] == ':' || ends_authority(rest[0])) && (forall|i: int|
        0 <= i < rest.len() && #[trigger] rest[i] == '@' ==> exists|j: int|
            0 <= j < i && ends_authority(#[trigger] rest[j])) {
        let tail = "127.0.0.1"@ + rest;
        let whole = "http://127.0.0.1"@ + rest;
        assert(whole =~= "http://"@ + tail);
        text::lemma_prefix(whole, "http://"@, tail);
        lemma_authority(tail);
        let authority = http_authority(whole);
        assert(authority.len() >= 9) by {
            if authority.len() < 9 {
                assert(tail[authority.len() as int] == "127.0.0.1"@[authority.len() as int]);
            }
        }
        assert forall|i: int| 0 <= i < 9 implies authority[i] == "127.0.0.1"@[i] by {
            assert(authority[i] == tail[i]);
        }
        text::lemma_first_piece(authority, ':');
        let host = text::first_piece_of(authority, ':');
        if host.len() < 9 {
            assert(authority[host.len() as int] == "127.0.0.1"@[host.len() as int]);
        } else if host.len() > 9 {
            assert(authority[9] == tail[9] && tail[9] == rest[0]);
            assert(host[9] == authority[9]);
            assert(host.contains(host[9]));
        }
        assert(host =~= "127.0.0.1"@);
        if authority.contains('@') {
            let i = choose|i: int| 0 <= i < authority.len() && authority[i] == '@';
            assert(tail[i] == '@');
            if i < 9 {
                assert(tail[i] == "127.0.0.1"@[i]);
            }
            assert(rest[i - 9] == '@');
            let j = choose|j: int| 0 <= j < i - 9 && ends_authority(#[trigger] rest[j]);
            assert(authority[j + 9] == tail[j + 9]);
            assert(tail[j + 9] == rest[j]);
        }
    }
}

/// A configuration is accepted exactly where its endpoint is encrypted or on this
/// machine and nothing but the prefix is left out; the endpoint is looked at first.
pub proof fn lemma_accepted_configurations(config: S3Config)
    ensures
        ({
            let safe = (config.endpoint@.len() >= 8 && config.endpoint@.take(8) == "https://"@)
                || is_loopback(config.endpoint@);
            let complete = config.region@.len() > 0 && config.bucket@.len() > 0
                && config.access_key_id@.len() > 0 && config.secret_access_key@.len() > 0
                && config.max_object_bytes > 0 && config.max_attempts > 0 && (
            config.request_timeout.spec_seconds() > 0 || config.request_timeout.spec_nanoseconds()
                > 0);
            &&& safe && complete <==> config_fault(config) is None
            &&& !safe ==> config_fault(config) == Some(
                "S3 endpoint must use HTTPS (HTTP is accepted only for loopback tests)"@,
            )
            &&& safe && !complete ==> config_fault(config) == Some(
                "S3 region, bucket, credentials, size limit, and timeout are required"@,
            )
        }),
{
    reveal_strlit("https://");
    if config.endpoint@.len() >= 8 {
        assert(config.endpoint@.take(8) =~= config.endpoint@.subrange(0, 8));
    }
}

/// A client is set up for the bucket, region, endpoint and keys of the configuration,
/// with one retry less than the attempts that it allows, and may go unencrypted only to
/// this machine.
pub proof fn lemma_settings(settings: ClientSettings, config: S3Config)
    requires
        settings.are_for(config),
    ensures
        settings.endpoint@ == config.endpoint@,
        settings.region@ == config.region@,
        settings.bucket@ == config.bucket@,
        settings.access_key_id@ == config.access_key_id@,
        settings.secret_access_key@ == config.secret_access_key@,
        !settings.virtual_hosted_style,
        settings.allow_http <==> is_loopback(config.endpoint@),
        config.max_attempts > 0 ==> settings.max_retries == config.max_attempts - 1,
        config.max_attempts == 0 ==> settings.max_retries == 0,
        settings.retry_timeout == config.request_timeout,
{
}

/// A store has the limit and the timeout of its configuration, and its prefix without
/// the slashes at both ends.
pub proof fn lemma_configured_stores(store: S3Store, config: S3Config)
    requires
        store.configured(config),
    ensures
        store.spec_max_object_bytes() == config.max_object_bytes,
        store.spec_request_timeout() == config.request_timeout,
        exists|start: int, end: int| #[trigger]
            text::trims(config.prefix@, '/', store.spec_prefix(), start, end),
{
    text::lemma_trimming_takes_only_marks(config.prefix@, '/');
}

/// What a reply comes to: what it holds, or a failure that says what was being done and
/// what went wrong. Where it is looked up, a key that is not there is a miss instead.
pub proof fn lemma_replies<T>(operation: Seq<char>, value: T, error: String)
    ensures
        answered(operation, Reply::Done(value)) == Ok::<_, StoreErrorView>(value),
        answered(operation, Reply::<T>::NotFound(error)) == Err::<T, _>(
            StoreErrorView::Unavailable(operation + ": "@ + error@),
        ),
        answered(operation, Reply::<T>::Failed(error)) == Err::<T, _>(
            StoreErrorView::Unavailable(operation + ": "@ + error@),
        ),
        answered(operation, Reply::<T>::TimedOut) == Err::<T, _>(
            StoreErrorView::Unavailable(operation + " timed out"@),
        ),
        looked_up(operation, Reply::Done(value)) == Ok::<_, StoreErrorView>(Some(value)),
        looked_up(operation, Reply::<T>::NotFound(error)) == Ok::<_, StoreErrorView>(None::<T>),
        looked_up(operation, Reply::<T>::Failed(error)) == Err::<Option<T>, _>(
            StoreErrorView::Unavailable(operation + ": "@ + error@),
        ),
        looked_up(operation, Reply::<T>::TimedOut) == Err::<Option<T>, _>(
            StoreErrorView::Unavailable(operation + " timed out"@),
        ),
        error_view(Ok::<T, StoreError>(value)) == Ok::<_, StoreErrorView>(value),
        forall|failed: StoreError| #[trigger]
            error_view(Err::<T, StoreError>(failed)) == Err::<T, _>(failed@),
{
}

/// The keys of an object spell its name out, under the prefix if there is one.
pub proof fn lemma_keys_spell_the_name(prefix: Seq<char>, cid: Seq<char>)
    requires
        cid::is_cid(cid),
    ensures
        ({
            let front = if prefix.len() == 0 {
                Seq::empty()
            } else {
                prefix + "/"@
            };
            let shards = "/"@ + cid.subrange(3, 5) + "/"@ + cid.subrange(5, 7) + "/"@
                + cid.subrange(3, 67);
            &&& key_under(prefix, "objects"@, cid, ""@) == front + "objects"@ + shards
            &&& key_under(prefix, "entries"@, cid, ".json"@) == front + "entries"@ + shards
                + ".json"@
            &&& object_key_under(prefix, cid) == front + "objects"@ + shards
            &&& entry_key_under(prefix, cid) == front + "entries"@ + shards + ".json"@
        }),
{
    reveal_strlit("");
    let front = if prefix.len() == 0 {
        Seq::empty()
    } else {
        prefix + "/"@
    };
    let shards = "/"@ + cid.subrange(3, 5) + "/"@ + cid.subrange(5, 7) + "/"@ + cid.subrange(
        3,
        67,
    );
    layout::lemma_places_spell_the_name("objects"@, cid, ""@);
    layout::lemma_places_spell_the_name("entries"@, cid, ".json"@);
    assert(key_under(prefix, "objects"@, cid, ""@) =~= front + "objects"@ + shards);
    assert(key_under(prefix, "entries"@, cid, ".json"@) =~= front + "entries"@ + shards
        + ".json"@);
}

/// The key of any part is its place, under the prefix if there is one.
pub proof fn lemma_keys_are_places(
    prefix: Seq<char>,
    kind: Seq<char>,
    cid: Seq<char>,
    suffix: Seq<char>,
)
    ensures
        prefix.len() == 0 ==> key_under(prefix, kind, cid, suffix) == layout::place(
            kind,
            cid,
            suffix,
        ),
        prefix.len() > 0 ==> key_under(prefix, kind, cid, suffix) == prefix + "/"@ + layout::place(
            kind,
            cid,
            suffix,
        ),
{
}

/// A put answers with the name exactly where both parts were written. Otherwise it
/// answers with the failure, and the object is removed again exactly where it was
/// written and the service did not write the metadata.
pub proof fn lemma_put_answers(cid: Seq<char>, error: String)
    ensures
        put_answer(cid, Reply::Done(Ok(Reply::Done(())))) == Ok::<_, StoreErrorView>(cid),
        !rolls_back(Reply::Done(Ok(Reply::Done(())))),
        ({
            let failed = Err::<Seq<char>, _>(
                StoreErrorView::Unavailable("put object"@ + ": "@ + error@),
            );
            &&& put_answer(cid, Reply::NotFound(error)) == failed
            &&& put_answer(cid, Reply::Failed(error)) == failed
            &&& put_answer(cid, Reply::Done(Ok(Reply::NotFound(error)))) == failed
            &&& put_answer(cid, Reply::Done(Ok(Reply::Failed(error)))) == failed
            &&& !rolls_back(Reply::NotFound(error)) && !rolls_back(Reply::Failed(error))
            &&& rolls_back(Reply::Done(Ok(Reply::NotFound(error)))) && rolls_back(
                Reply::Done(Ok(Reply::Failed(error))),
            )
        }),
        ({
            let late = Err::<Seq<char>, _>(StoreErrorView::Unavailable("put object"@ + " timed out"@));
            &&& put_answer(cid, Reply::TimedOut) == late
            &&& put_answer(cid, Reply::Done(Ok(Reply::TimedOut))) == late
            &&& !rolls_back(Reply::TimedOut)
            &&& rolls_back(Reply::Done(Ok(Reply::TimedOut)))
        }),
        put_answer(cid, Reply::Done(Err(error))) == Err::<Seq<char>, _>(
            StoreErrorView::Unavailable("encode entry"@ + ": "@ + error@),
        ),
        !rolls_back(Reply::Done(Err(error))),
        entry_written(Ok(Reply::Done(()))) is Ok,
        entry_written(Err(error)) == Err::<(), _>(
            StoreErrorView::Unavailable("encode entry"@ + ": "@ + error@),
        ),
        entry_written(Ok(Reply::Failed(error))) == Err::<(), _>(
            StoreErrorView::Unavailable("put object"@ + ": "@ + error@),
        ),
        entry_written(Ok(Reply::NotFound(error))) == Err::<(), _>(
            StoreErrorView::Unavailable("put object"@ + ": "@ + error@),
        ),
        entry_written(Ok(Reply::TimedOut)) == Err::<(), _>(
            StoreErrorView::Unavailable("put object"@ + " timed out"@),
        ),
{
}

/// A read gives the bytes back exactly where they are within the limit and hash to the
/// name; otherwise it says how many they are and what they hash to. A key that is not
/// there is a miss, and every failure stays that failure.
pub proof fn lemma_read_answers(limit: usize, cid: Seq<char>, content: Vec<u8>, error: String)
    ensures
        body_checked(limit, cid, content@) == if content@.len() <= limit && cid == "b3:"@
            + cid::blake3_hex(content@) {
            Ok(Some(content@))
        } else {
            Err(
                StoreErrorView::Integrity {
                    cid,
                    detail: "content is "@ + text::decimal_text(content@.len())
                        + " bytes and hashes to "@ + ("b3:"@ + cid::blake3_hex(content@)),
                },
            )
        },
        object_read(limit, cid, Reply::Done(Reply::Done(content))) == body_checked(
            limit,
            cid,
            content@,
        ),
        object_read(limit, cid, Reply::NotFound(error)) == Ok::<_, StoreErrorView>(None::<Seq<u8>>),
        object_read(limit, cid, Reply::Failed(error)) == Err::<Option<Seq<u8>>, _>(
            StoreErrorView::Unavailable("get object"@ + ": "@ + error@),
        ),
        object_read(limit, cid, Reply::TimedOut) == Err::<Option<Seq<u8>>, _>(
            StoreErrorView::Unavailable("get object"@ + " timed out"@),
        ),
        object_read(limit, cid, Reply::Done(Reply::NotFound(error))) == Err::<Option<Seq<u8>>, _>(
            StoreErrorView::Unavailable("read object body"@ + ": "@ + error@),
        ),
        object_read(limit, cid, Reply::Done(Reply::Failed(error))) == Err::<Option<Seq<u8>>, _>(
            StoreErrorView::Unavailable("read object body"@ + ": "@ + error@),
        ),
        object_read(limit, cid, Reply::Done(Reply::TimedOut)) == Err::<Option<Seq<u8>>, _>(
            StoreErrorView::Unavailable("read object body"@ + " timed out"@),
        ),
{
}

/// Metadata is given as it is stored exactly where it names the object and its manifest
/// passes the check; other metadata, and metadata that cannot be decoded, is an
/// integrity failure. A key that is not there is a miss, and every failure stays that
/// failure.
pub proof fn lemma_head_answers(cid: Seq<char>, entry: Entry, error: String)
    ensures
        entry_read(cid, Reply::Done(Reply::Done(Ok(entry)))) == if entry.manifest.cid@ == cid
            && manifest::validated(entry.manifest@) is Ok {
            Ok(Some(entry@))
        } else {
            Err(
                StoreErrorView::Integrity {
                    cid,
                    detail: "entry metadata does not describe the requested CID"@,
                },
            )
        },
        entry_read(cid, Reply::Done(Reply::Done(Err(error)))) == Err::<Option<EntryView>, _>(
            StoreErrorView::Integrity { cid, detail: "entry metadata is corrupt: "@ + error@ },
        ),
        entry_read(cid, Reply::NotFound(error)) == Ok::<_, StoreErrorView>(None::<EntryView>),
        entry_read(cid, Reply::Failed(error)) == Err::<Option<EntryView>, _>(
            StoreErrorView::Unavailable("get entry"@ + ": "@ + error@),
        ),
        entry_read(cid, Reply::TimedOut) == Err::<Option<EntryView>, _>(
            StoreErrorView::Unavailable("get entry"@ + " timed out"@),
        ),
        entry_read(cid, Reply::Done(Reply::NotFound(error))) == Err::<Option<EntryView>, _>(
            StoreErrorView::Unavailable("read entry body"@ + ": "@ + error@),
        ),
        entry_read(cid, Reply::Done(Reply::Failed(error))) == Err::<Option<EntryView>, _>(
            StoreErrorView::Unavailable("read entry body"@ + ": "@ + error@),
        ),
        entry_read(cid, Reply::Done(Reply::TimedOut)) == Err::<Option<EntryView>, _>(
            StoreErrorView::Unavailable("read entry body"@ + " timed out"@),
        ),
        entry_in(Reply::Done(Reply::Done(Ok(entry)))) == Some(entry),
        entry_in(Reply::Done(Reply::Done(Err(error)))) is None,
        forall|body: Reply<Result<Entry, String>>|
            #![trigger entry_in(Reply::Done(body))]
            !(body is Done) ==> entry_in(Reply::Done(body)) is None,
        forall|reply: Reply<Reply<Result<Entry, String>>>|
            #![trigger entry_in(reply)]
            !(reply is Done) ==> entry_in(reply) is None,
{
}

/// What was put with a quarantined provenance is read back quarantined, and is absent to
/// a judge, until a matching rebuild rewrites its metadata: that is then trusted, and
/// the judge may read the object.
pub proof fn lemma_quarantine_lasts_until_promotion(
    content: Seq<u8>,
    provenance: ProvenanceView,
    stored: Entry,
    rewritten: Entry,
)
    requires
        content.len() <= u64::MAX,
        provenance.trust is Quarantined,
        stored@ == store::entry_of(content, provenance),
        store::promotion(
            cid::cid_of(content),
            entry_read(cid::cid_of(content), Reply::Done(Reply::Done(Ok(stored)))),
        ) == Ok::<_, StoreErrorView>(rewritten@),
    ensures
        ({
            let cid = cid::cid_of(content);
            let before = entry_read(cid, Reply::Done(Reply::Done(Ok(stored))));
            let after = entry_read(cid, Reply::Done(Reply::Done(Ok(rewritten))));
            &&& before matches Ok(Some(entry)) && entry.provenance == provenance
            &&& store::judging_access(before) is Absent
            &&& after matches Ok(Some(entry)) && entry.provenance.trust is Verified
                && entry.provenance.origin == provenance.origin && entry.provenance.distribution
                == provenance.distribution && entry.manifest == stored@.manifest
            &&& store::judging_access(after) is Open
            &&& store::peer_access(cid, after) == store::peer_access(cid, before)
        }),
{
    manifest::lemma_built_verifies(content, None);
}

/// Only integrity failures make an object corrupt.
pub proof fn lemma_corruption<T>(
    value: T,
    cid: Seq<char>,
    detail: Seq<char>,
    distribution: provenance::Distribution,
)
    ensures
        is_corrupt(Err::<T, _>(StoreErrorView::Integrity { cid, detail })),
        !is_corrupt(Ok::<T, StoreErrorView>(value)),
        !is_corrupt(Err::<T, _>(StoreErrorView::Unavailable(detail))),
        !is_corrupt(Err::<T, _>(StoreErrorView::DistributionRefused { cid, distribution })),
{
}

/// A key is deleted where the service says so or has no such key; an object is removed
/// where both of its keys are, and the failure for the object comes first. An object is
/// there exactly where the service finds its key.
pub proof fn lemma_removal_answers(object: Reply<()>, entry: Reply<()>, error: String)
    ensures
        deleted(Reply::Done(())) is Ok,
        deleted(Reply::NotFound(error)) is Ok,
        deleted(Reply::Failed(error)) == Err::<(), _>(
            StoreErrorView::Unavailable("delete object"@ + ": "@ + error@),
        ),
        deleted(Reply::TimedOut) == Err::<(), _>(
            StoreErrorView::Unavailable("delete object"@ + " timed out"@),
        ),
        deleted(object) is Err ==> removed(object, entry) == deleted(object),
        deleted(object) is Ok ==> removed(object, entry) == deleted(entry),
        present(Reply::Done(())) == Ok::<_, StoreErrorView>(true),
        present(Reply::NotFound(error)) == Ok::<_, StoreErrorView>(false),
        present(Reply::Failed(error)) == Err::<bool, _>(
            StoreErrorView::Unavailable("head object"@ + ": "@ + error@),
        ),
        present(Reply::TimedOut) == Err::<bool, _>(
            StoreErrorView::Unavailable("head object"@ + " timed out"@),
        ),
{
}

/// A rebuild is at fault exactly where its hash is another than the name.
pub proof fn lemma_rebuilds_are_checked(cid: Seq<char>, reproduced: Seq<u8>)
    ensures
        rebuild_fault(cid, reproduced) == if cid == "b3:"@ + cid::blake3_hex(reproduced) {
            None
        } else {
            Some(
                StoreErrorView::Integrity {
                    cid,
                    detail: "trusted rebuild hashes to "@ + ("b3:"@ + cid::blake3_hex(reproduced)),
                },
            )
        },
{
}

} // verus!
