//! The job envelope carried on the queue, and how a queue entry becomes a job.

use vstd::prelude::*;

use crate::jobs::JobError;
use crate::principal::WorkspaceId;
use crate::text::{append_str, chars_of, concat_str, string_from_chars};
use crate::uuid_text::{parse_uuid, uuid_parse, uuid_string, uuid_text};

verus! {

pub const READY_STREAM: &'static str = "extractions:queue";

pub const DLQ_STREAM: &'static str = "extractions:dlq";

pub const DELAYED_ZSET: &'static str = "extractions:delayed";

pub const CONSUMER_GROUP: &'static str = "workers";

/// The identifiers of one queued extraction. UUIDs are held as their
/// 128-bit values.
#[derive(Debug, Clone, Copy, PartialEq, Eq, Structural)]
pub struct JobEnvelope {
    pub extraction_id: u128,
    pub document_id: u128,
    pub template_id: u128,
    pub workspace_id: u128,
    pub batch_job_id: Option<u128>,
}

pub type FieldsView = Seq<(Seq<char>, Seq<char>)>;

pub open spec fn fields_view(v: Seq<(String, String)>) -> FieldsView {
    v.map_values(|p: (String, String)| (p.0@, p.1@))
}

/// The stream fields of an envelope, in order; `batch_job_id` only when set.
pub open spec fn to_fields_spec(e: JobEnvelope) -> FieldsView {
    let base = seq![
        ("extraction_id"@, uuid_text(e.extraction_id)),
        ("document_id"@, uuid_text(e.document_id)),
        ("template_id"@, uuid_text(e.template_id)),
        ("workspace_id"@, uuid_text(e.workspace_id)),
    ];
    match e.batch_job_id {
        Some(b) => base.push(("batch_job_id"@, uuid_text(b))),
        None => base,
    }
}

/// The value of `key` in `fields`; as in a map built from them, a later
/// pair wins.
pub open spec fn field_value(fields: FieldsView, key: Seq<char>) -> Option<Seq<char>>
    decreases fields.len(),
{
    if fields.len() == 0 {
        None
    } else if fields.last().0 == key {
        Some(fields.last().1)
    } else {
        field_value(fields.drop_last(), key)
    }
}

/// A required UUID field, or the message saying why it is unusable.
pub open spec fn required_spec(fields: FieldsView, key: Seq<char>) -> Result<u128, Seq<char>> {
    match field_value(fields, key) {
        None => Err("missing field "@ + key),
        Some(v) => match uuid_parse(v) {
            Some(u) => Ok(u),
            None => Err(key + " is not a UUID"@),
        },
    }
}

/// What `from_fields` gives: the four required identifiers in order, the
/// workspace not nil, and an optional batch identifier (an empty value is
/// none). Every failure is permanent; this is its message.
pub open spec fn from_fields_spec(fields: FieldsView) -> Result<JobEnvelope, Seq<char>> {
    match required_spec(fields, "extraction_id"@) {
        Err(m) => Err(m),
        Ok(extraction_id) => match required_spec(fields, "document_id"@) {
            Err(m) => Err(m),
            Ok(document_id) => match required_spec(fields, "template_id"@) {
                Err(m) => Err(m),
                Ok(template_id) => match required_spec(fields, "workspace_id"@) {
                    Err(m) => Err(m),
                    Ok(workspace_id) => if workspace_id == 0 {
                        Err("workspace_id must not be the nil UUID"@)
                    } else {
                        let batch = match field_value(fields, "batch_job_id"@) {
                            Some(v) => if v.len() > 0 {
                                match uuid_parse(v) {
                                    Some(u) => Ok(Some(u)),
                                    None => Err("batch_job_id is not a UUID"@),
                                }
                            } else {
                                Ok(None)
                            },
                            None => Ok(None),
                        };
                        match batch {
                            Err(m) => Err(m),
                            Ok(batch_job_id) => Ok(
                                JobEnvelope {
                                    extraction_id,
                                    document_id,
                                    template_id,
                                    workspace_id,
                                    batch_job_id,
                                },
                            ),
                        }
                    },
                },
            },
        },
    }
}

/// `fields` are what `to_fields` writes for `e`, an envelope with a
/// workspace.
pub open spec fn written_by(fields: FieldsView, e: JobEnvelope) -> bool {
    to_fields_spec(e) == fields && e.workspace_id != 0
}

/// The JSON text of the delayed-retry payload: the five members in
/// declaration order, the batch identifier `null` when unset.
pub open spec fn delayed_payload_spec(e: JobEnvelope) -> Seq<char> {
    "{\"extraction_id\":\""@ + uuid_text(e.extraction_id) + "\",\"document_id\":\""@ + uuid_text(
        e.document_id,
    ) + "\",\"template_id\":\""@ + uuid_text(e.template_id) + "\",\"workspace_id\":\""@ + uuid_text(
        e.workspace_id,
    ) + "\",\"batch_job_id\":"@ + match e.batch_job_id {
        Some(b) => seq!['"'] + uuid_text(b) + seq!['"'],
        None => "null"@,
    } + "}"@
}

fn lookup_field<'a>(fields: &'a Vec<(String, String)>, key: &str) -> (r: Option<&'a String>)
    ensures
        match r {
            Some(v) => field_value(fields_view(fields@), key@) == Some(v@),
            None => field_value(fields_view(fields@), key@).is_none(),
        },
{
    let ghost fv = fields_view(fields@);
    let k = chars_of(key);
    let mut i: usize = fields.len();
    proof {
        assert(fv.take(i as int) == fv);
    }
    while i > 0
        invariant
            i <= fields@.len(),
            k@ == key@,
            fv == fields_view(fields@),
            field_value(fv, key@) == field_value(fv.take(i as int), key@),
        decreases i,
    {
        let t = chars_of(fields[i - 1].0.as_str());
        proof {
            assert(fv.take(i as int).last() == (fields@[i - 1].0@, fields@[i - 1].1@));
            assert(fv.take(i as int).drop_last() == fv.take(i - 1));
        }
        if crate::text::chars_eq(t.as_slice(), k.as_slice()) {
            return Some(&fields[i - 1].1);
        }
        i = i - 1;
    }
    None
}

fn required_uuid(fields: &Vec<(String, String)>, key: &str) -> (r: Result<u128, JobError>)
    ensures
        match r {
            Ok(u) => required_spec(fields_view(fields@), key@) == Ok::<u128, Seq<char>>(u),
            Err(e) => e is Permanent && required_spec(fields_view(fields@), key@) == Err::<u128, Seq<char>>(
                e.message_spec(),
            ),
        },
        forall|u: u128|
            field_value(fields_view(fields@), key@) == Some(#[trigger] uuid_text(u)) ==> (r matches Ok(x) && x
                == u),
{
    match lookup_field(fields, key) {
        None => Err(JobError::permanent(concat_str("missing field ", key))),
        Some(v) => match parse_uuid(v.as_str()) {
            Some(u) => Ok(u),
            None => Err(JobError::permanent(concat_str(key, " is not a UUID"))),
        },
    }
}

impl JobEnvelope {
    /// The envelope's workspace, refused when nil.
    pub fn workspace(&self) -> (r: Result<WorkspaceId, JobError>)
        ensures
            match r {
                Ok(w) => self.workspace_id != 0 && w@ == self.workspace_id,
                Err(e) => self.workspace_id == 0 && e is Permanent && e.message_spec()
                    == "workspace_id must not be the nil UUID"@,
            },
    {
        match WorkspaceId::new(self.workspace_id) {
            Ok(w) => Ok(w),
            Err(_) => Err(JobError::permanent("workspace_id must not be the nil UUID".to_string())),
        }
    }

    /// The stream fields, in order.
    pub fn to_fields(&self) -> (r: Vec<(String, String)>)
        ensures
            fields_view(r@) == to_fields_spec(*self),
    {
        let mut fields: Vec<(String, String)> = Vec::new();
        fields.push(("extraction_id".to_string(), uuid_string(self.extraction_id)));
        fields.push(("document_id".to_string(), uuid_string(self.document_id)));
        fields.push(("template_id".to_string(), uuid_string(self.template_id)));
        fields.push(("workspace_id".to_string(), uuid_string(self.workspace_id)));
        match self.batch_job_id {
            Some(b) => fields.push(("batch_job_id".to_string(), uuid_string(b))),
            None => {},
        }
        proof {
            assert(fields_view(fields@) =~= to_fields_spec(*self));
        }
        fields
    }

    /// Reads an envelope from stream fields. Every failure is permanent.
    /// Fields written by `to_fields` read back as the envelope that wrote
    /// them, when its workspace is not nil.
    pub fn from_fields(fields: &Vec<(String, String)>) -> (r: Result<JobEnvelope, JobError>)
        ensures
            match r {
                Ok(e) => from_fields_spec(fields_view(fields@)) == Ok::<JobEnvelope, Seq<char>>(e),
                Err(e) => e is Permanent && from_fields_spec(fields_view(fields@)) == Err::<
                    JobEnvelope,
                    Seq<char>,
                >(e.message_spec()),
            },
            forall|e: JobEnvelope| #[trigger] written_by(fields_view(fields@), e) ==> r == Ok::<JobEnvelope, JobError>(e),
    {
        proof {
            reveal_strlit("extraction_id");
            reveal_strlit("document_id");
            reveal_strlit("template_id");
            reveal_strlit("workspace_id");
            reveal_strlit("batch_job_id");
        }
        let ghost fv = fields_view(fields@);
        let extraction_id = match required_uuid(fields, "extraction_id") {
            Ok(u) => u,
            Err(err) => {
                proof {
                    assert forall|e: JobEnvelope| #[trigger] written_by(fv, e) implies false by {
                        lemma_to_fields_values(e);
                    }
                }
                return Err(err);
            },
        };
        let document_id = match required_uuid(fields, "document_id") {
            Ok(u) => u,
            Err(err) => {
                proof {
                    assert forall|e: JobEnvelope| #[trigger] written_by(fv, e) implies false by {
                        lemma_to_fields_values(e);
                    }
                }
                return Err(err);
            },
        };
        let template_id = match required_uuid(fields, "template_id") {
            Ok(u) => u,
            Err(err) => {
                proof {
                    assert forall|e: JobEnvelope| #[trigger] written_by(fv, e) implies false by {
                        lemma_to_fields_values(e);
                    }
                }
                return Err(err);
            },
        };
        let workspace_id = match required_uuid(fields, "workspace_id") {
            Ok(u) => u,
            Err(err) => {
                proof {
                    assert forall|e: JobEnvelope| #[trigger] written_by(fv, e) implies false by {
                        lemma_to_fields_values(e);
                    }
                }
                return Err(err);
            },
        };
        if workspace_id == 0 {
            proof {
                assert forall|e: JobEnvelope| #[trigger] written_by(fv, e) implies false by {
                    lemma_to_fields_values(e);
                }
            }
            return Err(JobError::permanent("workspace_id must not be the nil UUID".to_string()));
        }
        let batch_job_id = match lookup_field(fields, "batch_job_id") {
            Some(value) => {
                if !value.as_str().is_empty() {
                    match parse_uuid(value.as_str()) {
                        Some(u) => Some(u),
                        None => {
                            proof {
                                assert forall|e: JobEnvelope| #[trigger] written_by(fv, e) implies false by {
                                    lemma_to_fields_values(e);
                                }
                            }
                            return Err(JobError::permanent("batch_job_id is not a UUID".to_string()));
                        },
                    }
                } else {
                    None
                }
            },
            None => None,
        };
        let r = JobEnvelope { extraction_id, document_id, template_id, workspace_id, batch_job_id };
        proof {
            assert forall|e: JobEnvelope| #[trigger] written_by(fv, e) implies r == e by {
                lemma_to_fields_values(e);
            }
        }
        Ok(r)
    }

    /// The JSON payload stored for a delayed retry.
    pub fn to_delayed_payload(&self) -> (s: String)
        ensures
            s@ == delayed_payload_spec(*self),
    {
        let mut v = chars_of("{\"extraction_id\":\"");
        append_str(&mut v, uuid_string(self.extraction_id).as_str());
        append_str(&mut v, "\",\"document_id\":\"");
        append_str(&mut v, uuid_string(self.document_id).as_str());
        append_str(&mut v, "\",\"template_id\":\"");
        append_str(&mut v, uuid_string(self.template_id).as_str());
        append_str(&mut v, "\",\"workspace_id\":\"");
        append_str(&mut v, uuid_string(self.workspace_id).as_str());
        append_str(&mut v, "\",\"batch_job_id\":");
        match self.batch_job_id {
            Some(b) => {
                v.push('"');
                append_str(&mut v, uuid_string(b).as_str());
                v.push('"');
            },
            None => append_str(&mut v, "null"),
        }
        append_str(&mut v, "}");
        proof {
            assert(v@ =~= delayed_payload_spec(*self));
        }
        string_from_chars(v.as_slice())
    }

    /// Checks an envelope read from a delayed payload: a payload that is not
    /// a valid envelope (`Err` with the reader's message) or has a nil
    /// workspace is a permanent failure.
    pub fn from_delayed_payload(parsed: Result<JobEnvelope, String>) -> (r: Result<JobEnvelope, JobError>)
        ensures
            match parsed {
                Err(m) => r matches Err(e) && e is Permanent && e.message_spec()
                    == "delayed payload is not valid JSON: "@ + m@,
                Ok(env) => if env.workspace_id == 0 {
                    r matches Err(e) && e is Permanent && e.message_spec()
                        == "workspace_id must not be the nil UUID"@
                } else {
                    r == Ok::<JobEnvelope, JobError>(env)
                },
            },
    {
        match parsed {
            Err(m) => Err(JobError::permanent(concat_str("delayed payload is not valid JSON: ", m.as_str()))),
            Ok(env) => {
                if env.workspace_id == 0 {
                    Err(JobError::permanent("workspace_id must not be the nil UUID".to_string()))
                } else {
                    Ok(env)
                }
            },
        }
    }
}

/// A job read from the queue; its stream id is used only to acknowledge it.
#[derive(Debug, Clone)]
pub struct ExtractionJob {
    pub stream_id: String,
    pub extraction_id: u128,
    pub document_id: u128,
    pub template_id: u128,
    pub workspace_id: WorkspaceId,
    pub batch_job_id: Option<u128>,
}

impl ExtractionJob {
    /// The envelope this job carries.
    pub fn envelope(&self) -> (e: JobEnvelope)
        ensures
            e == (JobEnvelope {
                extraction_id: self.extraction_id,
                document_id: self.document_id,
                template_id: self.template_id,
                workspace_id: self.workspace_id@,
                batch_job_id: self.batch_job_id,
            }),
    {
        JobEnvelope {
            extraction_id: self.extraction_id,
            document_id: self.document_id,
            template_id: self.template_id,
            workspace_id: self.workspace_id.as_uuid(),
            batch_job_id: self.batch_job_id,
        }
    }
}

/// A queue entry that could not be read as a job.
#[derive(Debug, Clone)]
pub struct MalformedMessage {
    pub stream_id: String,
    pub reason: String,
    pub fields: Vec<(String, String)>,
}

#[derive(Debug, Clone)]
pub enum StreamDelivery {
    Job(ExtractionJob),
    Malformed(MalformedMessage),
}

/// Classifies a queue entry from its id and its text fields: a job when the
/// fields form an envelope, otherwise a malformed message that keeps the
/// fields and gives the reason.
pub fn parse_stream_entry(stream_id: String, fields: Vec<(String, String)>) -> (d: StreamDelivery)
    ensures
        match from_fields_spec(fields_view(fields@)) {
            Ok(e) => d matches StreamDelivery::Job(j) && j.stream_id@ == stream_id@ && j.envelope_spec() == e,
            Err(m) => d matches StreamDelivery::Malformed(msg) && msg.stream_id@ == stream_id@ && msg.reason@ == m
                && fields_view(msg.fields@) == fields_view(fields@),
        },
{
    match JobEnvelope::from_fields(&fields) {
        Ok(envelope) => match envelope.workspace() {
            Ok(workspace_id) => StreamDelivery::Job(
                ExtractionJob {
                    stream_id,
                    extraction_id: envelope.extraction_id,
                    document_id: envelope.document_id,
                    template_id: envelope.template_id,
                    workspace_id,
                    batch_job_id: envelope.batch_job_id,
                },
            ),
            Err(err) => StreamDelivery::Malformed(
                MalformedMessage { stream_id, reason: err.message().clone(), fields },
            ),
        },
        Err(err) => StreamDelivery::Malformed(
            MalformedMessage { stream_id, reason: err.message().clone(), fields },
        ),
    }
}

impl ExtractionJob {
    pub open spec fn envelope_spec(&self) -> JobEnvelope {
        JobEnvelope {
            extraction_id: self.extraction_id,
            document_id: self.document_id,
            template_id: self.template_id,
            workspace_id: self.workspace_id@,
            batch_job_id: self.batch_job_id,
        }
    }
}

/// What each key finds among the fields an envelope writes.
proof fn lemma_to_fields_values(e: JobEnvelope)
    ensures
        field_value(to_fields_spec(e), "extraction_id"@) == Some(uuid_text(e.extraction_id)),
        field_value(to_fields_spec(e), "document_id"@) == Some(uuid_text(e.document_id)),
        field_value(to_fields_spec(e), "template_id"@) == Some(uuid_text(e.template_id)),
        field_value(to_fields_spec(e), "workspace_id"@) == Some(uuid_text(e.workspace_id)),
        field_value(to_fields_spec(e), "batch_job_id"@) == (match e.batch_job_id {
            Some(b) => Some(uuid_text(b)),
            None => None::<Seq<char>>,
        }),
        e.batch_job_id matches Some(b) ==> uuid_text(b).len() == 36,
{
    reveal_strlit("extraction_id");
    reveal_strlit("document_id");
    reveal_strlit("template_id");
    reveal_strlit("workspace_id");
    reveal_strlit("batch_job_id");
    let p1 = ("extraction_id"@, uuid_text(e.extraction_id));
    let p2 = ("document_id"@, uuid_text(e.document_id));
    let p3 = ("template_id"@, uuid_text(e.template_id));
    let p4 = ("workspace_id"@, uuid_text(e.workspace_id));
    let f1 = seq![p1];
    let f2 = f1.push(p2);
    let f3 = f2.push(p3);
    let f4 = f3.push(p4);
    assert(f4 =~= seq![p1, p2, p3, p4]);
    assert(f1.drop_last() =~= Seq::<(Seq<char>, Seq<char>)>::empty());
    assert(f2.drop_last() =~= f1);
    assert(f3.drop_last() =~= f2);
    assert(f4.drop_last() =~= f3);
    assert("template_id"@ != "document_id"@) by {
        assert("template_id"@[0] != "document_id"@[0]);
    }
    assert("workspace_id"@ != "batch_job_id"@) by {
        assert("workspace_id"@[0] != "batch_job_id"@[0]);
    }
    assert("template_id"@.len() != "extraction_id"@.len());
    assert("workspace_id"@.len() != "extraction_id"@.len());
    assert("template_id"@ != "extraction_id"@);
    assert("workspace_id"@ != "extraction_id"@);
    assert(f3.last() == p3 && f4.last() == p4 && f2.last() == p2 && f1.last() == p1);
    assert("batch_job_id"@.len() != "document_id"@.len());
    assert("batch_job_id"@.len() != "extraction_id"@.len());
    assert("batch_job_id"@.len() != "template_id"@.len());
    assert("batch_job_id"@ != "document_id"@);
    assert("batch_job_id"@ != "extraction_id"@);
    assert("batch_job_id"@ != "template_id"@);
    // every lookup in f4
    assert(field_value(f1, "extraction_id"@) == Some(p1.1));
    assert(field_value(f2, "document_id"@) == Some(p2.1));
    assert(field_value(f3, "template_id"@) == Some(p3.1));
    assert(field_value(f4, "workspace_id"@) == Some(p4.1));
    assert(field_value(f2, "extraction_id"@) == Some(p1.1));
    assert(field_value(f3, "extraction_id"@) == Some(p1.1));
    assert(field_value(f4, "extraction_id"@) == Some(p1.1));
    assert(field_value(f3, "document_id"@) == Some(p2.1));
    assert(field_value(f4, "document_id"@) == Some(p2.1));
    assert(field_value(f4, "template_id"@) == Some(p3.1));
    assert(field_value(Seq::<(Seq<char>, Seq<char>)>::empty(), "batch_job_id"@).is_none());
    assert(field_value(f1, "batch_job_id"@).is_none());
    assert(field_value(f2, "batch_job_id"@).is_none());
    assert(field_value(f3, "batch_job_id"@).is_none());
    assert(field_value(f4, "batch_job_id"@).is_none());
    match e.batch_job_id {
        Some(b) => {
            lemma_uuid_text_len(b);
            let f5 = f4.push(("batch_job_id"@, uuid_text(b)));
            assert(f5.drop_last() =~= f4);
            assert(to_fields_spec(e) == f5);
            assert(field_value(f5, "batch_job_id"@) == Some(uuid_text(b)));
            assert(field_value(f5, "extraction_id"@) == Some(p1.1));
            assert(field_value(f5, "document_id"@) == Some(p2.1));
            assert(field_value(f5, "template_id"@) == Some(p3.1));
            assert(field_value(f5, "workspace_id"@) == Some(p4.1));
        },
        None => {
            assert(to_fields_spec(e) == f4);
        },
    }
}

proof fn lemma_uuid_text_len(u: u128)
    ensures
        uuid_text(u).len() == 36,
{
    crate::uuid_text::lemma_hex_digits_len_pub(u as int, 32);
}

} // verus!
