//! The queue-based source feed's notification model and the mapping
//! from one notification to the file locations it announces. The queue
//! client itself polls outside the library and hands parsed
//! notifications in; each record names one newly-landed object as
//! `{bucket}/{key}`.

use vstd::prelude::*;
use crate::errors::StoreError;

verus! {

/// Options of the queue-based source feed.
#[derive(Debug, Clone)]
pub struct SqsEventOptions {
    pub queue_name: String,
}

/// Restore details carried by lifecycle notifications.
pub struct RestoreEventData {
    pub lifecycle_restoration_expiry_time: String,
    pub lifecycle_restore_storage_class: String,
}

/// Cold-storage restore details of one notification.
pub struct GlacierEventData {
    pub restore_event_data: RestoreEventData,
}

/// The object one notification record describes.
pub struct Object {
    pub key: String,
    pub size: String,
    pub e_tag: String,
    pub version_id: String,
    pub sequencer: String,
}

/// The bucket one notification record describes.
pub struct Bucket {
    pub name: String,
    pub owner_identity: UserId,
    pub arn: String,
}

/// The storage half of one notification record: schema, configuration,
/// bucket and object.
pub struct S3 {
    pub s3schema_version: String,
    pub configuration_id: String,
    pub bucket: Bucket,
    pub object: Object,
}

/// Request identifiers the storage service echoed back.
pub struct ResponseElements {
    pub x_amz_request_id: String,
    pub x_amz_id_2: String,
}

/// The request's origin.
pub struct RequestParameters {
    pub source_ipaddress: String,
}

/// A principal identifier.
pub struct UserId {
    pub principal_id: String,
}

/// One notification record: one changed object with its context.
pub struct Event {
    pub event_version: String,
    pub event_source: String,
    pub aws_region: String,
    pub event_time: String,
    pub event_name: String,
    pub user_identity: UserId,
    pub request_parameters: RequestParameters,
    pub response_elements: ResponseElements,
    pub s3: S3,
    pub glacier_event_data: GlacierEventData,
}

/// One queue message's notification envelope: a list of records.
pub struct SqsEvent {
    pub records: Vec<Event>,
}

/// The file locations one notification announces: one `{bucket}/{key}`
/// per record, in record order.
pub fn locations_of_event(event: &SqsEvent) -> (r: Vec<String>)
    ensures
        r@.len() == event.records@.len(),
        forall|i: int|
            0 <= i < r@.len() ==> (#[trigger] r@[i])@ == event.records@[i].s3.bucket.name@ + "/"@
                + event.records@[i].s3.object.key@,
{
    let n = event.records.len();
    let mut r: Vec<String> = Vec::new();
    let mut i: usize = 0;
    while i < n
        invariant
            i <= n,
            n == event.records@.len(),
            r@.len() == i,
            forall|k: int|
                0 <= k < i ==> (#[trigger] r@[k])@ == event.records@[k].s3.bucket.name@ + "/"@
                    + event.records@[k].s3.object.key@,
        decreases n - i,
    {
        let record = &event.records[i];
        let mut loc = record.s3.bucket.name.clone();
        loc.append("/");
        loc.append(record.s3.object.key.as_str());
        r.push(loc);
        i = i + 1;
    }
    r
}

/// What parsing a location yields: the canonical form the path layer
/// gives it, or nothing when the location is invalid.
pub uninterp spec fn parsed_location_of(s: Seq<char>) -> Option<Seq<char>>;

/// Relies on object_store's `Path::parse`: it validates a location —
/// rejecting empty segments, `.` and `..` segments, and segments with
/// control characters — and strips one leading and one trailing
/// delimiter; the result depends on the characters alone. An empty
/// location parses to an empty path.
#[verifier::external_body]
fn parse_path(s: &str) -> (r: Result<String, StoreError>)
    ensures
        r is Ok <==> parsed_location_of(s@) is Some,
        r is Ok ==> r->Ok_0@ == parsed_location_of(s@)->0,
        s@.len() == 0 ==> r is Ok && r->Ok_0@.len() == 0,
        r is Err ==> r->Err_0 is Generic,
{
    match object_store::path::Path::parse(s) {
        Ok(p) => Ok(p.as_ref().to_owned()),
        Err(e) => Err(StoreError::Generic { cause: e.to_string() }),
    }
}

/// Validates a file location and brings it to the path layer's
/// canonical form, or rejects it as `Generic`.
pub fn normalize_location(s: &String) -> (r: Result<String, StoreError>)
    ensures
        r is Ok <==> parsed_location_of(s@) is Some,
        r is Ok ==> r->Ok_0@ == parsed_location_of(s@)->0,
        r is Err ==> r->Err_0 is Generic,
{
    parse_path(s.as_str())
}

} // verus!
