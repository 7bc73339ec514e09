use vstd::prelude::*;

use mongodb::bson::Document;

use vstd::string::to_string_from_display_ensures;

use crate::text::{chars_of, has_word, is_space, is_space_char, string_from_chars};

verus! {

#[verifier::external_type_specification]
#[verifier::external_body]
pub struct ExIoError(std::io::Error);

#[verifier::external_type_specification]
#[verifier::external_body]
pub struct ExJsonError(serde_json::Error);

#[verifier::external_type_specification]
#[verifier::external_body]
pub struct ExJsonValue(serde_json::Value);

#[verifier::external_type_specification]
#[verifier::external_body]
#[verifier::reject_recursive_types(K)]
#[verifier::reject_recursive_types(V)]
pub struct ExJsonMap<K, V>(serde_json::Map<K, V>);

#[verifier::external_type_specification]
#[verifier::external_body]
pub struct ExDocument(mongodb::bson::Document);

#[verifier::external_type_specification]
#[verifier::external_body]
pub struct ExBsonSerError(mongodb::bson::ser::Error);

#[verifier::external_type_specification]
#[verifier::external_body]
pub struct ExMongoError(mongodb::error::Error);

/// How many documents are gathered before one bulk insert.
pub const BATCH_SIZE: usize = 1000;

/// Why loading a file of documents failed.
#[derive(Debug)]
pub enum LoadError {
    Io(std::io::Error),
    Json(serde_json::Error),
    Mongo(mongodb::error::Error),
    InvalidDocument,
}

/// What becomes of a text when it is read as a JSON value and, if that value
/// is an object, turned into BSON.
pub enum LineBson {
    /// The text is not one JSON value (or nests too deeply for the parser).
    Malformed,
    /// The text is one JSON value that is not an object.
    NotObject,
    /// The text is a JSON object that BSON cannot hold (a number too large
    /// for any BSON integer, for one).
    Refused,
    /// The text is a JSON object whose BSON form is not a document (an
    /// object in extended-JSON form such as `{"$oid": ..}`).
    NotDocument,
    /// The text is a JSON object whose BSON form is this document.
    Document(Document),
}

/// The outcome of `serde_json::from_str::<serde_json::Value>(text)` followed,
/// for an object, by `mongodb::bson::to_bson` of its map.
pub uninterp spec fn line_bson(text: Seq<char>) -> LineBson;

/// A line read as JSON and turned into BSON, with the outside errors kept.
pub enum ParsedLine {
    /// The line is not JSON: the parser's error.
    Malformed(serde_json::Error),
    /// The line is JSON but not an object.
    NotObject,
    /// BSON cannot hold the object: the serialiser's error.
    Refused(mongodb::bson::ser::Error),
    /// The object's BSON form is not a document.
    NotDocument,
    /// The object's BSON form, a document.
    Document(Document),
}

/// Trusted: `serde_json::from_str::<serde_json::Value>(text)` and, when the
/// value is an object, `mongodb::bson::to_bson(&map)`. The contract claims
/// only that the outcome is the one [`line_bson`] names for the text: both
/// calls depend on their argument alone, and the document is what the second
/// call returned for the whole object, unfiltered (so it has every key of the
/// object, a `null` value becoming `Bson::Null`).
#[verifier::external_body]
fn parse_line(text: &str) -> (r: ParsedLine)
    ensures
        match line_bson(text@) {
            LineBson::Malformed => r is Malformed,
            LineBson::NotObject => r is NotObject,
            LineBson::Refused => r is Refused,
            LineBson::NotDocument => r is NotDocument,
            LineBson::Document(d) => r == ParsedLine::Document(d),
        },
{
    match serde_json::from_str::<serde_json::Value>(text) {
        Err(e) => ParsedLine::Malformed(e),
        Ok(serde_json::Value::Object(map)) => match mongodb::bson::to_bson(&map) {
            Ok(mongodb::bson::Bson::Document(doc)) => ParsedLine::Document(doc),
            Ok(_) => ParsedLine::NotDocument,
            Err(e) => ParsedLine::Refused(e),
        },
        Ok(_) => ParsedLine::NotObject,
    }
}

/// Trusted: `mongodb::error::Error::from` on a BSON serialisation error.
#[verifier::external_body]
fn mongo_error_from(e: mongodb::bson::ser::Error) -> (r: mongodb::error::Error)
{
    mongodb::error::Error::from(e)
}

/// Whether `e` is the error that loading gives for a line with BSON outcome
/// `b`: `Json` for text that is not JSON, `InvalidDocument` for JSON that is
/// not an object or whose BSON form is not a document, `Mongo` for an object
/// BSON cannot hold; a line with a document gives no error.
pub open spec fn error_matches(b: LineBson, e: LoadError) -> bool {
    match b {
        LineBson::Malformed => e is Json,
        LineBson::NotObject => e is InvalidDocument,
        LineBson::Refused => e is Mongo,
        LineBson::NotDocument => e is InvalidDocument,
        LineBson::Document(_) => false,
    }
}

/// Whether `r` is what loading makes of a line with BSON outcome `b`: its
/// document, or the error that stops the load.
pub open spec fn line_result_matches(b: LineBson, r: Result<Document, LoadError>) -> bool {
    match r {
        Ok(d) => b == LineBson::Document(d),
        Err(e) => error_matches(b, e),
    }
}

/// Turns a line's JSON and BSON outcome into its document or its error: a
/// line that is not JSON gives `Json`, JSON that is not an object or whose
/// BSON form is not a document gives `InvalidDocument`, an object BSON cannot
/// hold gives `Mongo`.
pub fn document_from_parsed(parsed: ParsedLine) -> (r: Result<Document, LoadError>)
    ensures
        parsed is Malformed <==> r matches Err(LoadError::Json(_)),
        parsed is Refused <==> r matches Err(LoadError::Mongo(_)),
        (parsed is NotObject || parsed is NotDocument) <==> r matches Err(LoadError::InvalidDocument),
        parsed matches ParsedLine::Document(d) ==> r == Ok::<Document, LoadError>(d),
        !(r matches Err(LoadError::Io(_))),
{
    match parsed {
        ParsedLine::Malformed(e) => Err(LoadError::Json(e)),
        ParsedLine::NotObject => Err(LoadError::InvalidDocument),
        ParsedLine::Refused(e) => Err(LoadError::Mongo(mongo_error_from(e))),
        ParsedLine::NotDocument => Err(LoadError::InvalidDocument),
        ParsedLine::Document(doc) => Ok(doc),
    }
}

/// Parses one line of newline-delimited JSON into a document.
///
/// A line that is not JSON gives `Json`; a JSON value that is not an object,
/// or an object whose BSON form is not a document (extended JSON such as
/// `{"$oid": ..}`), gives `InvalidDocument`; an object that BSON cannot hold
/// gives `Mongo`; any other object gives its document.
pub fn line_to_doc(line: &str) -> (r: Result<Document, LoadError>)
    ensures
        line_result_matches(line_bson(line@), r),
{
    document_from_parsed(parse_line(line))
}

/// `s` without its leading and trailing white space, as `str::trim` gives it.
pub open spec fn trim(s: Seq<char>) -> Seq<char>
    decreases s.len(),
{
    if s.len() == 0 {
        s
    } else if is_space(s[0]) {
        trim(s.drop_first())
    } else if is_space(s.last()) {
        trim(s.drop_last())
    } else {
        s
    }
}

/// Trimming leaves nothing exactly when the line holds no word, and what it
/// leaves begins and ends with a character that is not white space.
pub proof fn law_trim(s: Seq<char>)
    ensures
        trim(s).len() == 0 <==> !has_word(s),
        trim(s).len() > 0 ==> !is_space(trim(s)[0]) && !is_space(trim(s).last()),
    decreases s.len(),
{
    if s.len() > 0 {
        if is_space(s[0]) {
            law_trim(s.drop_first());
            if has_word(s) {
                let i = choose|i: int| 0 <= i < s.len() && !is_space(#[trigger] s[i]);
                assert(s.drop_first()[i - 1] == s[i]);
            }
            if has_word(s.drop_first()) {
                let i = choose|i: int| 0 <= i < s.drop_first().len() && !is_space(#[trigger] s.drop_first()[i]);
                assert(s[i + 1] == s.drop_first()[i]);
            }
        } else if is_space(s.last()) {
            law_trim(s.drop_last());
            assert(s.drop_last()[0] == s[0]);
            assert(has_word(s));
            assert(has_word(s.drop_last()));
        } else {
            assert(has_word(s));
        }
    }
}

/// `s` without its leading and trailing white space.
pub fn trim_text(s: &str) -> (r: String)
    ensures
        r@ == trim(s@),
{
    let chars = chars_of(s);
    let n = chars.len();
    let mut i: usize = 0;
    let mut j: usize = n;
    proof {
        assert(s@.subrange(0, n as int) =~= s@);
    }
    while i < j && is_space_char(chars[i])
        invariant
            chars@ == s@,
            n == chars.len(),
            i <= j <= n,
            trim(s@) == trim(s@.subrange(i as int, j as int)),
        decreases j - i,
    {
        proof {
            assert(s@.subrange(i as int, j as int).drop_first() =~= s@.subrange(i + 1, j as int));
        }
        i = i + 1;
    }
    while i < j && is_space_char(chars[j - 1])
        invariant
            chars@ == s@,
            n == chars.len(),
            i <= j <= n,
            i < j ==> !is_space(s@[i as int]),
            trim(s@) == trim(s@.subrange(i as int, j as int)),
        decreases j - i,
    {
        proof {
            let sub = s@.subrange(i as int, j as int);
            assert(sub[0] == s@[i as int]);
            assert(sub.last() == s@[j - 1]);
            assert(sub.drop_last() =~= s@.subrange(i as int, j - 1));
        }
        j = j - 1;
    }
    let mut out: Vec<char> = Vec::new();
    let mut k: usize = i;
    while k < j
        invariant
            chars@ == s@,
            n == chars.len(),
            i <= k <= j <= n,
            out@ == s@.subrange(i as int, k as int),
        decreases j - k,
    {
        out.push(chars[k]);
        proof {
            assert(out@ =~= s@.subrange(i as int, k + 1));
        }
        k = k + 1;
    }
    proof {
        let sub = s@.subrange(i as int, j as int);
        if i < j {
            assert(sub[0] == s@[i as int]);
            assert(sub.last() == s@[j - 1]);
        }
    }
    string_from_chars(&out)
}

/// The counts of documents (handed out, waiting) after one more line: a
/// blank line changes nothing, any other line adds a waiting document, and a
/// full batch is handed out.
pub open spec fn count_step(counts: (nat, nat), line: Seq<char>) -> (nat, nat) {
    if trim(line).len() == 0 {
        counts
    } else if counts.1 + 1 == BATCH_SIZE {
        ((counts.0 + BATCH_SIZE) as nat, 0)
    } else {
        (counts.0, counts.1 + 1)
    }
}

/// The counts of documents (handed out, waiting) after reading `lines`
/// from the start of a file.
pub open spec fn counts_after(lines: Seq<Seq<char>>) -> (nat, nat)
    decreases lines.len(),
{
    if lines.len() == 0 {
        (0, 0)
    } else {
        count_step(counts_after(lines.drop_last()), lines.last())
    }
}

/// How many of `lines` are not blank.
pub open spec fn nonblank_lines(lines: Seq<Seq<char>>) -> nat
    decreases lines.len(),
{
    if lines.len() == 0 {
        0
    } else {
        nonblank_lines(lines.drop_last()) + if trim(lines.last()).len() == 0 { 0nat } else { 1nat }
    }
}

/// However a file's lines fall, every non-blank line yields one document:
/// those handed out in full batches plus those still waiting number the
/// non-blank lines, fewer than a batch wait, and whole batches go out.
pub proof fn law_every_line_counted(lines: Seq<Seq<char>>)
    ensures
        counts_after(lines).0 + counts_after(lines).1 == nonblank_lines(lines),
        counts_after(lines).1 < BATCH_SIZE,
        counts_after(lines).0 % (BATCH_SIZE as nat) == 0,
    decreases lines.len(),
{
    if lines.len() > 0 {
        law_every_line_counted(lines.drop_last());
        let c = counts_after(lines.drop_last());
        if trim(lines.last()).len() > 0 && c.1 + 1 == BATCH_SIZE {
            let h = c.0 as int;
            assert((h + 1000) % 1000 == 0) by (nonlinear_arith)
                requires
                    h % 1000 == 0,
            ;
        }
    }
}

/// The batches handed out and the documents waiting after one more line: a
/// line that gives a document adds it to the waiting ones, and a full batch
/// of them is handed out; any other line changes nothing.
pub open spec fn load_step(
    state: (Seq<Seq<Document>>, Seq<Document>),
    line: Seq<char>,
) -> (Seq<Seq<Document>>, Seq<Document>) {
    if trim(line).len() > 0 && line_bson(trim(line)) is Document {
        let waiting = state.1.push(line_bson(trim(line))->0);
        if waiting.len() == BATCH_SIZE {
            (state.0.push(waiting), Seq::empty())
        } else {
            (state.0, waiting)
        }
    } else {
        state
    }
}

/// The batches handed out and the documents waiting after reading `lines`
/// from the start of a file.
pub open spec fn batches_after(lines: Seq<Seq<char>>) -> (Seq<Seq<Document>>, Seq<Document>)
    decreases lines.len(),
{
    if lines.len() == 0 {
        (Seq::empty(), Seq::empty())
    } else {
        load_step(batches_after(lines.drop_last()), lines.last())
    }
}

/// The documents of `lines`, in order: one for each line that gives one.
pub open spec fn documents_of(lines: Seq<Seq<char>>) -> Seq<Document>
    decreases lines.len(),
{
    if lines.len() == 0 {
        Seq::empty()
    } else if trim(lines.last()).len() > 0 && line_bson(trim(lines.last())) is Document {
        documents_of(lines.drop_last()).push(line_bson(trim(lines.last()))->0)
    } else {
        documents_of(lines.drop_last())
    }
}

/// The batches handed out, one after the other, and then the documents still
/// waiting, are the documents of the lines in their order; every batch is a
/// full one, and fewer than a batch wait.
pub proof fn law_batches_are_the_lines_documents(lines: Seq<Seq<char>>)
    ensures
        batches_after(lines).0.flatten() + batches_after(lines).1 == documents_of(lines),
        forall|i: int|
            0 <= i < batches_after(lines).0.len() ==> #[trigger] batches_after(lines).0[i].len()
                == BATCH_SIZE,
        batches_after(lines).1.len() < BATCH_SIZE,
    decreases lines.len(),
{
    if lines.len() > 0 {
        let prev = lines.drop_last();
        law_batches_are_the_lines_documents(prev);
        let (bs, w) = batches_after(prev);
        let line = lines.last();
        if trim(line).len() > 0 && line_bson(trim(line)) is Document {
            let d = line_bson(trim(line))->0;
            let w2 = w.push(d);
            if w2.len() == BATCH_SIZE {
                bs.lemma_flatten_push(w2);
                assert(bs.push(w2).flatten() + Seq::<Document>::empty() =~= bs.flatten() + w2);
                assert(bs.flatten() + w2 =~= (bs.flatten() + w).push(d));
                assert forall|i: int| 0 <= i < bs.push(w2).len() implies #[trigger] bs.push(w2)[i].len()
                    == BATCH_SIZE by {
                    if i < bs.len() {
                        assert(bs.push(w2)[i] == bs[i]);
                    }
                }
            } else {
                assert(bs.flatten() + w2 =~= (bs.flatten() + w).push(d));
            }
        }
    }
}

/// The documents of one file on their way to the database: those waiting for
/// the next bulk insert, and how many were already handed out for insertion.
pub struct FileLoad {
    batch: Vec<Document>,
    total: usize,
}

impl FileLoad {
    /// Fewer documents wait than make a bulk insert.
    pub closed spec fn wf(&self) -> bool {
        self.batch.len() < BATCH_SIZE
    }

    /// The documents waiting for the next bulk insert, in the order of their
    /// lines.
    pub closed spec fn waiting(&self) -> Seq<Document> {
        self.batch@
    }

    /// How many documents were handed out in full batches.
    pub closed spec fn handed_out(&self) -> nat {
        self.total as nat
    }

    /// Nothing read yet.
    pub fn new() -> (r: Self)
        ensures
            r.waiting() == Seq::<Document>::empty(),
            r.handed_out() == 0,
            r.wf(),
    {
        FileLoad { batch: Vec::with_capacity(BATCH_SIZE), total: 0 }
    }

    /// How many documents were handed out in full batches.
    pub fn handed_out_count(&self) -> (r: usize)
        ensures
            r == self.handed_out(),
    {
        self.total
    }

    /// How many documents wait for the next bulk insert.
    pub fn waiting_count(&self) -> (r: usize)
        ensures
            r == self.waiting().len(),
    {
        self.batch.len()
    }

    /// Takes one line of the file. A blank line is skipped. Any other line is
    /// parsed into a document that joins the waiting ones; when that makes a
    /// full batch, the batch is handed out for a bulk insert. A line that
    /// gives no document leaves everything as it was and stops the load.
    pub fn on_line(&mut self, line: &str) -> (r: Result<Option<Vec<Document>>, LoadError>)
        requires
            old(self).wf(),
            old(self).waiting().len() + 1 == BATCH_SIZE ==> old(self).handed_out() + BATCH_SIZE
                <= usize::MAX,
        ensures
            final(self).wf(),
            r is Ok ==> (final(self).handed_out(), final(self).waiting().len()) == count_step(
                (old(self).handed_out(), old(self).waiting().len()),
                line@,
            ),
            r is Err ==> final(self).waiting() == old(self).waiting() && final(self).handed_out()
                == old(self).handed_out(),
            trim(line@).len() == 0 ==> (r matches Ok(None)) && final(self).waiting() == old(
                self,
            ).waiting() && final(self).handed_out() == old(self).handed_out(),
            trim(line@).len() > 0 ==> match r {
                Ok(_) => line_bson(trim(line@)) is Document,
                Err(e) => error_matches(line_bson(trim(line@)), e),
            },
            r matches Ok(None) && trim(line@).len() > 0 ==> {
                &&& old(self).waiting().len() + 1 < BATCH_SIZE
                &&& final(self).waiting() == old(self).waiting().push(line_bson(trim(line@))->0)
                &&& final(self).handed_out() == old(self).handed_out()
            },
            r matches Ok(Some(docs)) ==> {
                &&& trim(line@).len() > 0
                &&& old(self).waiting().len() + 1 == BATCH_SIZE
                &&& docs@ == old(self).waiting().push(line_bson(trim(line@))->0)
                &&& final(self).waiting() == Seq::<Document>::empty()
                &&& final(self).handed_out() == old(self).handed_out() + BATCH_SIZE
            },
            r matches Ok(None) ==> load_step((Seq::empty(), old(self).waiting()), line@) == (
                Seq::<Seq<Document>>::empty(),
                final(self).waiting(),
            ),
            r matches Ok(Some(docs)) ==> load_step((Seq::empty(), old(self).waiting()), line@) == (
                seq![docs@],
                final(self).waiting(),
            ),
    {
        let trimmed = trim_text(line);
        if trimmed.as_str().unicode_len() == 0 {
            return Ok(None);
        }
        let doc = match line_to_doc(trimmed.as_str()) {
            Ok(d) => d,
            Err(e) => return Err(e),
        };
        if self.batch.len() + 1 < BATCH_SIZE {
            self.batch.push(doc);
            Ok(None)
        } else {
            let mut docs = Vec::with_capacity(BATCH_SIZE);
            std::mem::swap(&mut docs, &mut self.batch);
            docs.push(doc);
            self.total = self.total + BATCH_SIZE;
            Ok(Some(docs))
        }
    }

    /// Ends the file: hands out the documents still waiting, if any, and
    /// tells how many documents the file held in all.
    pub fn finish(self) -> (r: (Option<Vec<Document>>, usize))
        requires
            self.wf(),
            self.handed_out() + self.waiting().len() <= usize::MAX,
        ensures
            r.1 == self.handed_out() + self.waiting().len(),
            self.waiting().len() == 0 ==> r.0 is None,
            self.waiting().len() > 0 ==> (r.0 matches Some(docs) && docs@ == self.waiting()),
    {
        let FileLoad { batch, total } = self;
        if batch.len() == 0 {
            (None, total)
        } else {
            let n = batch.len();
            (Some(batch), total + n)
        }
    }
}

impl From<std::io::Error> for LoadError {
    fn from(e: std::io::Error) -> (r: LoadError) {
        LoadError::Io(e)
    }
}

impl vstd::std_specs::convert::FromSpecImpl<std::io::Error> for LoadError {
    open spec fn obeys_from_spec() -> bool {
        true
    }

    open spec fn from_spec(v: std::io::Error) -> LoadError {
        LoadError::Io(v)
    }
}

impl From<serde_json::Error> for LoadError {
    fn from(e: serde_json::Error) -> (r: LoadError) {
        LoadError::Json(e)
    }
}

impl vstd::std_specs::convert::FromSpecImpl<serde_json::Error> for LoadError {
    open spec fn obeys_from_spec() -> bool {
        true
    }

    open spec fn from_spec(v: serde_json::Error) -> LoadError {
        LoadError::Json(v)
    }
}

impl From<mongodb::error::Error> for LoadError {
    fn from(e: mongodb::error::Error) -> (r: LoadError) {
        LoadError::Mongo(e)
    }
}

impl vstd::std_specs::convert::FromSpecImpl<mongodb::error::Error> for LoadError {
    open spec fn obeys_from_spec() -> bool {
        true
    }

    open spec fn from_spec(v: mongodb::error::Error) -> LoadError {
        LoadError::Mongo(v)
    }
}

impl LoadError {
    /// The message for this error: a prefix naming the kind of failure,
    /// followed by the underlying error's own text.
    pub fn message(&self) -> (r: String)
        ensures
            self matches LoadError::Io(e) ==> exists|s: String|
                to_string_from_display_ensures::<std::io::Error>(&e, s) && r@ == "IO error: "@
                    + s@,
            self matches LoadError::Json(e) ==> exists|s: String|
                to_string_from_display_ensures::<serde_json::Error>(&e, s) && r@
                    == "JSON parse error: "@ + s@,
            self matches LoadError::Mongo(e) ==> exists|s: String|
                to_string_from_display_ensures::<mongodb::error::Error>(&e, s) && r@
                    == "MongoDB error: "@ + s@,
            self matches LoadError::InvalidDocument ==> r@ == "Parsed JSON is not a BSON document"@,
    {
        match self {
            LoadError::Io(e) => {
                let text = e.to_string();
                let mut r = String::from_str("IO error: ");
                r.append(text.as_str());
                assert(to_string_from_display_ensures(e, text));
                r
            },
            LoadError::Json(e) => {
                let text = e.to_string();
                let mut r = String::from_str("JSON parse error: ");
                r.append(text.as_str());
                assert(to_string_from_display_ensures(e, text));
                r
            },
            LoadError::Mongo(e) => {
                let text = e.to_string();
                let mut r = String::from_str("MongoDB error: ");
                r.append(text.as_str());
                assert(to_string_from_display_ensures(e, text));
                r
            },
            LoadError::InvalidDocument => String::from_str("Parsed JSON is not a BSON document"),
        }
    }
}

} // verus!
