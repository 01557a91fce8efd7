use vstd::prelude::*;

use crate::errors::UploadError;
use crate::filename::valid_filename;
use crate::filename::validate_filename;
use crate::paths::joined_path;
use crate::paths::stored_path;
use crate::paths::upload_dir;
use crate::store::FileStore;

verus! {

/// The states of the multipart stream reader while one upload request's
/// body is consumed.
#[derive(Clone, Copy, Debug, PartialEq, Eq, Structural)]
pub enum UploadPhase {
    /// Between fields: waiting for the next field or for the end of the
    /// body.
    AwaitingField,
    /// Inside a field: its output file is open and chunks are being
    /// appended in arrival order.
    ReadingChunks,
    /// The body is exhausted; the outcome can be reported.
    BodyComplete,
    /// A failure was recorded; the rest of the body is abandoned.
    Errored,
}

/// The plain-text body reported when an upload stored a file.
pub open spec fn success_message(name: Seq<char>) -> Seq<char> {
    name + " Uploaded successful."@
}

/// The plain-text body reported when an upload stored nothing.
pub open spec fn failure_message() -> Seq<char> {
    "File upload failed."@
}

/// Drives one upload request: each network or filesystem event is handed to
/// a method, and the method's result tells the handler what to do next.
/// The handler performs the offloaded filesystem work itself; this machine
/// owns every decision.
pub struct Uploader {
    /// Where in the body the reader stands.
    pub phase: UploadPhase,
    /// The filename of the last field that was accepted.
    pub filename: Option<String>,
    /// The first failure recorded, if any; it is never overwritten.
    pub error: Option<UploadError>,
}

impl Uploader {
    /// The finished upload is reported as a success: a field's file was
    /// stored and no failure was recorded on the way.
    pub open spec fn reports_success(self) -> bool {
        self.filename is Some && self.error is None
    }

    /// A fresh machine, before any of the body has been read.
    pub fn new() -> (u: Uploader)
        ensures
            u.phase is AwaitingField,
            u.filename is None,
            u.error is None,
    {
        Uploader { phase: UploadPhase::AwaitingField, filename: None, error: None }
    }

    /// A new field arrived, carrying `filename` in its metadata (or not).
    /// An acceptable filename yields the path the handler must open —
    /// truncating — for this field's chunks; a missing or unacceptable one
    /// is a malformed upload, and the rest of the body is abandoned.
    pub fn start_field(&mut self, filename: Option<String>) -> (r: Result<String, UploadError>)
        requires
            old(self).phase is AwaitingField,
        ensures
            match filename {
                Some(n) => if valid_filename(n@) {
                    &&& r matches Ok(p) && p@ == joined_path("./tmp"@, n@)
                    &&& final(self).phase is ReadingChunks
                    &&& final(self).filename == Some(n)
                    &&& final(self).error == old(self).error
                } else {
                    Self::field_rejected(*old(self), *final(self), r)
                },
                None => Self::field_rejected(*old(self), *final(self), r),
            },
    {
        match filename {
            Some(n) => {
                if validate_filename(n.as_str()) {
                    let path = stored_path(upload_dir(), n.as_str());
                    self.phase = UploadPhase::ReadingChunks;
                    self.filename = Some(n);
                    Ok(path)
                } else {
                    self.phase = UploadPhase::Errored;
                    self.error = Some(UploadError::MalformedUpload);
                    Err(UploadError::MalformedUpload)
                }
            },
            None => {
                self.phase = UploadPhase::Errored;
                self.error = Some(UploadError::MalformedUpload);
                Err(UploadError::MalformedUpload)
            },
        }
    }

    /// How a field with no usable filename leaves the machine: the failure
    /// is recorded, the phase is terminal, and the last accepted filename is
    /// kept as it was.
    pub open spec fn field_rejected(
        pre: Uploader,
        post: Uploader,
        r: Result<String, UploadError>,
    ) -> bool {
        &&& r == Err::<String, UploadError>(UploadError::MalformedUpload)
        &&& post.phase is Errored
        &&& post.error == Some(UploadError::MalformedUpload)
        &&& post.filename == pre.filename
    }

    /// An offloaded create or append for the current field failed: record
    /// the failure and abandon the rest of the chunk sequence.
    pub fn io_failed(&mut self, e: UploadError)
        requires
            old(self).phase is ReadingChunks,
            e == UploadError::CreateFailed || e == UploadError::WriteFailed || e
                == UploadError::OffloadFailed,
        ensures
            final(self).phase is Errored,
            final(self).error == Some(e),
            final(self).filename == old(self).filename,
    {
        self.phase = UploadPhase::Errored;
        self.error = Some(e);
    }

    /// The current field's terminating boundary was reached: its chunk
    /// sequence is complete and the next field (or the end of the body) may
    /// follow.
    pub fn end_field(&mut self)
        requires
            old(self).phase is ReadingChunks,
        ensures
            final(self).phase is AwaitingField,
            final(self).filename == old(self).filename,
            final(self).error == old(self).error,
    {
        self.phase = UploadPhase::AwaitingField;
    }

    /// The body is exhausted after zero or more complete fields.
    pub fn finish_body(&mut self)
        requires
            old(self).phase is AwaitingField,
        ensures
            final(self).phase is BodyComplete,
            final(self).filename == old(self).filename,
            final(self).error == old(self).error,
    {
        self.phase = UploadPhase::BodyComplete;
    }

    /// The plain-text response for the finished upload: the stored filename
    /// and a success notice when a file was stored without failure, and the
    /// fixed failure notice otherwise.
    pub fn response_body(&self) -> (r: String)
        requires
            self.phase is BodyComplete || self.phase is Errored,
        ensures
            self.reports_success() ==> r@ == success_message(self.filename.unwrap()@),
            !self.reports_success() ==> r@ == failure_message(),
    {
        if self.error.is_none() {
            match &self.filename {
                Some(n) => {
                    let mut body = n.clone();
                    body.append(" Uploaded successful.");
                    body
                },
                None => String::from_str("File upload failed."),
            }
        } else {
            String::from_str("File upload failed.")
        }
    }
}

/// The concatenation of a sequence of chunks, in arrival order.
pub open spec fn concat_chunks(chunks: Seq<Seq<u8>>) -> Seq<u8>
    decreases chunks.len(),
{
    if chunks.len() == 0 {
        Seq::empty()
    } else {
        concat_chunks(chunks.drop_last()) + chunks.last()
    }
}

/// Streams one multipart field into the directory model: the filename is
/// validated, the file is created (truncating), and every chunk is appended
/// in arrival order. On success the stored file holds exactly the
/// concatenation of the chunks; on a malformed field nothing at all is
/// written.
pub fn run_field(store: &mut FileStore, filename: Option<&str>, chunks: &Vec<Vec<u8>>) -> (r:
    Result<String, UploadError>)
    requires
        old(store).wf(),
    ensures
        final(store).wf(),
        match r {
            Ok(name) => {
                &&& filename matches Some(n) && n@ == name@
                &&& valid_filename(name@)
                &&& final(store).contents() == old(store).contents().insert(
                    name@,
                    concat_chunks(chunks.deep_view()),
                )
            },
            Err(e) => {
                &&& e == UploadError::MalformedUpload
                &&& match filename {
                    Some(n) => !valid_filename(n@),
                    None => true,
                }
                &&& final(store).contents() == old(store).contents()
            },
        },
{
    match filename {
        None => Err(UploadError::MalformedUpload),
        Some(n) => {
            if !validate_filename(n) {
                Err(UploadError::MalformedUpload)
            } else {
                store.create(n);
                let k = chunks.len();
                let mut i: usize = 0;
                proof {
                    assert(concat_chunks(chunks.deep_view().take(0)) =~= Seq::<u8>::empty());
                }
                while i < k
                    invariant
                        store.wf(),
                        k == chunks@.len(),
                        0 <= i <= k,
                        store.contents() == old(store).contents().insert(
                            n@,
                            concat_chunks(chunks.deep_view().take(i as int)),
                        ),
                    decreases k - i,
                {
                    proof {
                        assert(store.contents().contains_key(n@));
                    }
                    store.append(n, chunks[i].as_slice());
                    proof {
                        let dv = chunks.deep_view();
                        assert(chunks@[i as int].deep_view() =~= chunks@[i as int]@);
                        assert(dv.take(i as int + 1).drop_last() =~= dv.take(i as int));
                        assert(concat_chunks(dv.take(i as int + 1)) == concat_chunks(
                            dv.take(i as int),
                        ) + dv[i as int]);
                        assert(store.contents() =~= old(store).contents().insert(
                            n@,
                            concat_chunks(dv.take(i as int + 1)),
                        ));
                    }
                    i += 1;
                }
                proof {
                    assert(chunks.deep_view().take(k as int) =~= chunks.deep_view());
                }
                Ok(String::from_str(n))
            }
        },
    }
}

/// One parsed multipart field: the filename its metadata declared, if any,
/// and its byte chunks in arrival order.
pub struct FieldData {
    pub filename: Option<String>,
    pub chunks: Vec<Vec<u8>>,
}

/// The field carries a filename that may be stored under.
pub open spec fn field_ok(f: FieldData) -> bool {
    f.filename matches Some(n) && valid_filename(n@)
}

/// The name a field stores under.
pub open spec fn field_name(f: FieldData) -> Seq<char> {
    f.filename.unwrap()@
}

/// Every field of the body carries an acceptable filename.
pub open spec fn all_fields_ok(fields: Seq<FieldData>) -> bool {
    forall|i: int| 0 <= i < fields.len() ==> field_ok(#[trigger] fields[i])
}

/// What the directory holds after the body's fields are streamed in, in
/// order: each acceptable field stores its chunks' concatenation under its
/// name (a repeated name is overwritten — the last writer wins), and the
/// first field without an acceptable filename aborts the rest of the body.
pub open spec fn store_after(
    m: Map<Seq<char>, Seq<u8>>,
    fields: Seq<FieldData>,
) -> Map<Seq<char>, Seq<u8>>
    decreases fields.len(),
{
    if fields.len() == 0 {
        m
    } else if !field_ok(fields.first()) {
        m
    } else {
        store_after(
            m.insert(field_name(fields.first()), concat_chunks(fields.first().chunks.deep_view())),
            fields.drop_first(),
        )
    }
}

/// Streams a whole multipart body into the directory model, field by field,
/// and reports the outcome exactly as the upload handler does: the last
/// stored filename with a success notice when every field stored, and the
/// fixed failure notice when the body held no field or a malformed one.
pub fn run_upload(store: &mut FileStore, fields: &Vec<FieldData>) -> (r: String)
    requires
        old(store).wf(),
    ensures
        final(store).wf(),
        final(store).contents() == store_after(old(store).contents(), fields@),
        (fields@.len() > 0 && all_fields_ok(fields@)) ==> r@ == success_message(
            field_name(fields@.last()),
        ),
        !(fields@.len() > 0 && all_fields_ok(fields@)) ==> r@ == failure_message(),
{
    let n = fields.len();
    let mut i: usize = 0;
    let mut last_name: Option<String> = None;
    proof {
        assert(fields@.skip(0) =~= fields@);
    }
    while i < n
        invariant
            store.wf(),
            n == fields@.len(),
            0 <= i <= n,
            forall|j: int| 0 <= j < i ==> field_ok(#[trigger] fields@[j]),
            store_after(old(store).contents(), fields@) == store_after(
                store.contents(),
                fields@.skip(i as int),
            ),
            i > 0 ==> (last_name matches Some(nm) && nm@ == field_name(fields@[i as int - 1])),
            i == 0 ==> last_name is None,
        decreases n - i,
    {
        let f = &fields[i];
        let fname: Option<&str> = match &f.filename {
            Some(s) => Some(s.as_str()),
            None => None,
        };
        match run_field(store, fname, &f.chunks) {
            Ok(name) => {
                proof {
                    assert(field_ok(fields@[i as int]));
                    assert(fields@.skip(i as int).first() == fields@[i as int]);
                    assert(fields@.skip(i as int).drop_first() =~= fields@.skip(i as int + 1));
                }
                last_name = Some(name);
                i += 1;
            },
            Err(_) => {
                proof {
                    assert(!field_ok(fields@[i as int]));
                    assert(fields@.skip(i as int).first() == fields@[i as int]);
                    assert(!all_fields_ok(fields@));
                }
                return String::from_str("File upload failed.");
            },
        }
    }
    proof {
        assert(fields@.skip(n as int) =~= Seq::<FieldData>::empty());
    }
    match last_name {
        Some(nm) => {
            proof {
                assert(fields@.last() == fields@[n as int - 1]);
            }
            let mut body = nm;
            body.append(" Uploaded successful.");
            body
        },
        None => String::from_str("File upload failed."),
    }
}

/// One observable mutation of the storage directory: a file being created
/// (truncating), or one chunk being appended to it. Concurrent uploads
/// produce some interleaving of their events.
pub enum StoreEvent {
    Create { name: Seq<char> },
    Append { name: Seq<char>, chunk: Seq<u8> },
}

/// The file an event touches.
pub open spec fn event_name(e: StoreEvent) -> Seq<char> {
    match e {
        StoreEvent::Create { name } => name,
        StoreEvent::Append { name, .. } => name,
    }
}

/// The directory after a sequence of events, each applied as the store's
/// operations do: a create leaves the empty file, an append extends the
/// file in place.
pub open spec fn apply_events(
    m: Map<Seq<char>, Seq<u8>>,
    es: Seq<StoreEvent>,
) -> Map<Seq<char>, Seq<u8>>
    decreases es.len(),
{
    if es.len() == 0 {
        m
    } else {
        let m1 = apply_events(m, es.drop_last());
        match es.last() {
            StoreEvent::Create { name } => m1.insert(name, Seq::empty()),
            StoreEvent::Append { name, chunk } => m1.insert(
                name,
                (if m1.contains_key(name) {
                    m1[name]
                } else {
                    Seq::empty()
                }) + chunk,
            ),
        }
    }
}

/// The events of `es` that touch `name`, in their original order.
pub open spec fn events_for(es: Seq<StoreEvent>, name: Seq<char>) -> Seq<StoreEvent>
    decreases es.len(),
{
    if es.len() == 0 {
        Seq::empty()
    } else {
        let rest = events_for(es.drop_last(), name);
        if event_name(es.last()) == name {
            rest.push(es.last())
        } else {
            rest
        }
    }
}

/// A file is determined by its own events alone: events on other names —
/// their creations included — contribute nothing to it, however the events
/// are interleaved.
pub proof fn lemma_only_own_events_matter(
    m: Map<Seq<char>, Seq<u8>>,
    es: Seq<StoreEvent>,
    name: Seq<char>,
)
    ensures
        apply_events(m, es).contains_key(name) <==> apply_events(
            m,
            events_for(es, name),
        ).contains_key(name),
        apply_events(m, es).contains_key(name) ==> apply_events(m, es)[name] == apply_events(
            m,
            events_for(es, name),
        )[name],
    decreases es.len(),
{
    if es.len() > 0 {
        lemma_only_own_events_matter(m, es.drop_last(), name);
        let e = es.last();
        let rest = events_for(es.drop_last(), name);
        if event_name(e) == name {
            assert(events_for(es, name) == rest.push(e));
            assert(rest.push(e).drop_last() =~= rest);
            assert(rest.push(e).last() == e);
        } else {
            assert(events_for(es, name) == rest);
        }
    }
}

/// The directory events of one whole upload: the file is created, then its
/// chunks are appended in arrival order.
pub open spec fn upload_events(name: Seq<char>, chunks: Seq<Seq<u8>>) -> Seq<StoreEvent>
    decreases chunks.len(),
{
    if chunks.len() == 0 {
        seq![StoreEvent::Create { name }]
    } else {
        upload_events(name, chunks.drop_last()).push(
            StoreEvent::Append { name, chunk: chunks.last() },
        )
    }
}

/// An undisturbed upload stores exactly the concatenation of its chunks.
pub proof fn lemma_upload_events_store(
    m: Map<Seq<char>, Seq<u8>>,
    name: Seq<char>,
    chunks: Seq<Seq<u8>>,
)
    ensures
        apply_events(m, upload_events(name, chunks)).contains_key(name),
        apply_events(m, upload_events(name, chunks))[name] == concat_chunks(chunks),
    decreases chunks.len(),
{
    if chunks.len() == 0 {
        assert(seq![StoreEvent::Create { name }].drop_last() =~= Seq::<StoreEvent>::empty());
    } else {
        lemma_upload_events_store(m, name, chunks.drop_last());
        let prefix = upload_events(name, chunks.drop_last());
        let e = StoreEvent::Append { name, chunk: chunks.last() };
        assert(prefix.push(e).drop_last() =~= prefix);
        assert(prefix.push(e).last() == e);
    }
}

/// Concurrent uploads to two distinct filenames never interleave bytes:
/// however the directory events of the two uploads are interleaved, each
/// resulting file holds exactly its own upload's chunks, concatenated in
/// order.
pub proof fn lemma_two_uploads_independent(
    m: Map<Seq<char>, Seq<u8>>,
    es: Seq<StoreEvent>,
    first: Seq<char>,
    second: Seq<char>,
    first_chunks: Seq<Seq<u8>>,
    second_chunks: Seq<Seq<u8>>,
)
    requires
        events_for(es, first) == upload_events(first, first_chunks),
        events_for(es, second) == upload_events(second, second_chunks),
    ensures
        apply_events(m, es).contains_key(first),
        apply_events(m, es)[first] == concat_chunks(first_chunks),
        apply_events(m, es).contains_key(second),
        apply_events(m, es)[second] == concat_chunks(second_chunks),
{
    lemma_only_own_events_matter(m, es, first);
    lemma_upload_events_store(m, first, first_chunks);
    lemma_only_own_events_matter(m, es, second);
    lemma_upload_events_store(m, second, second_chunks);
}

/// A create on the directory — the insert its contract states — is one
/// event of the interleaving model.
pub proof fn lemma_create_is_one_event(m: Map<Seq<char>, Seq<u8>>, name: Seq<char>)
    ensures
        m.insert(name, Seq::<u8>::empty()) == apply_events(
            m,
            seq![StoreEvent::Create { name }],
        ),
{
    assert(apply_events(m, Seq::<StoreEvent>::empty()) == m);
    assert(seq![StoreEvent::Create { name }].drop_last() =~= Seq::<StoreEvent>::empty());
    assert(seq![StoreEvent::Create { name }].last() == StoreEvent::Create { name });
}

/// An append to the directory — the insert its contract states — is one
/// event of the interleaving model.
pub proof fn lemma_append_is_one_event(
    m: Map<Seq<char>, Seq<u8>>,
    name: Seq<char>,
    chunk: Seq<u8>,
)
    requires
        m.contains_key(name),
    ensures
        m.insert(name, m[name] + chunk) == apply_events(
            m,
            seq![StoreEvent::Append { name, chunk }],
        ),
{
    assert(apply_events(m, Seq::<StoreEvent>::empty()) == m);
    assert(seq![StoreEvent::Append { name, chunk }].drop_last() =~= Seq::<StoreEvent>::empty());
    assert(seq![StoreEvent::Append { name, chunk }].last() == StoreEvent::Append { name, chunk });
}

/// Round trip: a directory that has just stored an upload's chunks under
/// `name` serves back, for that name, exactly their concatenation.
pub proof fn lemma_upload_round_trip(
    m: Map<Seq<char>, Seq<u8>>,
    name: Seq<char>,
    chunks: Seq<Seq<u8>>,
)
    ensures
        m.insert(name, concat_chunks(chunks)).contains_key(name),
        m.insert(name, concat_chunks(chunks))[name] == concat_chunks(chunks),
{
}

} // verus!
