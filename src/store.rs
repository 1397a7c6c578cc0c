//! An in-process, append-only store of file records and token records.
//! It is the single arbiter of file names: a name is created once, and a
//! second creation under that name is refused.
use vstd::prelude::*;
use crate::error::Error;

verus! {

/// A file record: a fresh identifier, a unique name, and the creation time
/// in nanoseconds since the Unix epoch, UTC.
pub struct File {
    pub id: u128,
    pub name: String,
    pub created_at: i128,
}

/// What a file record holds.
pub struct FileView {
    pub id: u128,
    pub name: Seq<char>,
    pub created_at: i128,
}

impl View for File {
    type V = FileView;

    open spec fn view(&self) -> FileView {
        FileView { id: self.id, name: self.name@, created_at: self.created_at }
    }
}

/// A token record: a fresh identifier, the token text, the creation time in
/// nanoseconds since the Unix epoch, UTC, the file it belongs to, and
/// whether it is enabled.
pub struct Token {
    pub id: u128,
    pub name: String,
    pub created_at: i128,
    pub file_id: u128,
    pub enabled: bool,
}

/// What a token record holds.
pub struct TokenView {
    pub id: u128,
    pub name: Seq<char>,
    pub created_at: i128,
    pub file_id: u128,
    pub enabled: bool,
}

impl View for Token {
    type V = TokenView;

    open spec fn view(&self) -> TokenView {
        TokenView {
            id: self.id,
            name: self.name@,
            created_at: self.created_at,
            file_id: self.file_id,
            enabled: self.enabled,
        }
    }
}

/// Relies on uuid::Uuid::new_v4: a random identifier, as its 128 bits.
#[verifier::external_body]
fn new_id() -> (r: u128) {
    uuid::Uuid::new_v4().as_u128()
}

/// Relies on time::OffsetDateTime::now_utc: the current time, as
/// nanoseconds since the Unix epoch.
#[verifier::external_body]
fn now_utc_nanos() -> (r: i128) {
    time::OffsetDateTime::now_utc().unix_timestamp_nanos()
}

/// Some record in `rows` has this name.
pub open spec fn has_name(rows: Seq<FileView>, name: Seq<char>) -> bool {
    exists|i: int| 0 <= i < rows.len() && (#[trigger] rows[i]).name == name
}

/// No two records in `rows` share a name.
pub open spec fn names_unique(rows: Seq<FileView>) -> bool {
    forall|i: int, k: int|
        0 <= i < rows.len() && 0 <= k < rows.len() && i != k ==> (#[trigger] rows[i]).name
            != (#[trigger] rows[k]).name
}

/// Exactly one record in `rows` has this name.
pub open spec fn has_one_named(rows: Seq<FileView>, name: Seq<char>) -> bool {
    exists|i: int|
        0 <= i < rows.len() && (#[trigger] rows[i]).name == name && forall|k: int|
            0 <= k < rows.len() && (#[trigger] rows[k]).name == name ==> k == i
}

/// The record batch that `save_all` appends: one record per name, in order,
/// each owned by `file_id`, enabled, and all stamped with one time.
pub open spec fn is_batch_of(added: Seq<TokenView>, names: Seq<Seq<char>>, file_id: u128) -> bool {
    &&& added.len() == names.len()
    &&& forall|i: int| 0 <= i < added.len() ==> (#[trigger] added[i]).name == names[i]
    &&& forall|i: int| 0 <= i < added.len() ==> (#[trigger] added[i]).file_id == file_id
    &&& forall|i: int| 0 <= i < added.len() ==> (#[trigger] added[i]).enabled
    &&& forall|i: int, k: int|
        0 <= i < added.len() && 0 <= k < added.len() ==> (#[trigger] added[i]).created_at
            == (#[trigger] added[k]).created_at
}

/// The store handle: built once at startup and passed to each operation.
pub struct Client {
    files: Vec<File>,
    tokens: Vec<Token>,
}

impl Client {
    /// The file records, in the order they were written.
    pub closed spec fn file_rows(&self) -> Seq<FileView> {
        self.files@.map_values(|f: File| f@)
    }

    /// The token records, in the order they were written.
    pub closed spec fn token_rows(&self) -> Seq<TokenView> {
        self.tokens@.map_values(|t: Token| t@)
    }

    /// The store keeps file names unique.
    pub open spec fn wf(&self) -> bool {
        names_unique(self.file_rows())
    }

    /// The number of file records.
    pub fn file_count(&self) -> (r: usize)
        ensures
            r == self.file_rows().len(),
    {
        self.files.len()
    }

    /// The number of token records.
    pub fn token_count(&self) -> (r: usize)
        ensures
            r == self.token_rows().len(),
    {
        self.tokens.len()
    }

    /// The file record at position `i`.
    pub fn file_at(&self, i: usize) -> (r: &File)
        requires
            i < self.file_rows().len(),
        ensures
            r@ == self.file_rows()[i as int],
    {
        &self.files[i]
    }

    /// The token record at position `i`.
    pub fn token_at(&self, i: usize) -> (r: &Token)
        requires
            i < self.token_rows().len(),
        ensures
            r@ == self.token_rows()[i as int],
    {
        &self.tokens[i]
    }
}

/// A store handle with no records yet.
pub fn get_client() -> (r: Client)
    ensures
        r.wf(),
        r.file_rows().len() == 0,
        r.token_rows().len() == 0,
{
    let r = Client { files: Vec::new(), tokens: Vec::new() };
    assert(r.file_rows().len() == 0);
    r
}

/// Looks a file record up by its exact name; `None` when there is none.
pub fn get_by_name(client: &Client, name: &str) -> (r: Option<File>)
    ensures
        r is None <==> !has_name(client.file_rows(), name@),
        r matches Some(f) ==> client.file_rows().contains(f@) && f.name@ == name@,
{
    let key = name.to_owned();
    let mut i: usize = 0;
    while i < client.files.len()
        invariant
            key@ == name@,
            i <= client.files@.len(),
            forall|k: int| 0 <= k < i ==> (#[trigger] client.file_rows()[k]).name != name@,
        decreases client.files@.len() - i,
    {
        let f = &client.files[i];
        assert(client.file_rows()[i as int] == f@);
        if f.name == key {
            return Some(File { id: f.id, name: f.name.clone(), created_at: f.created_at });
        }
        i = i + 1;
    }
    None
}

/// Creates the file record named `name`, with a fresh identifier and the
/// current time, unless a record of that name exists: then nothing is
/// written and the result is `AlreadyExists`.
pub fn create(client: &mut Client, name: &str) -> (r: Result<File, Error>)
    requires
        old(client).wf(),
    ensures
        final(client).wf(),
        final(client).token_rows() == old(client).token_rows(),
        r is Err <==> has_name(old(client).file_rows(), name@),
        r matches Err(e) ==> e == Error::AlreadyExists && final(client).file_rows()
            == old(client).file_rows(),
        r matches Ok(f) ==> f.name@ == name@ && final(client).file_rows()
            == old(client).file_rows().push(f@),
{
    if get_by_name(client, name).is_some() {
        return Err(Error::AlreadyExists);
    }
    let id = new_id();
    let created_at = now_utc_nanos();
    let ghost before = client.file_rows();
    client.files.push(File { id, name: name.to_owned(), created_at });
    let file = File { id, name: name.to_owned(), created_at };
    proof {
        assert(client.file_rows() =~= before.push(file@));
        lemma_add_new_name(before, file@);
    }
    Ok(file)
}

/// Appends one token record per name, all owned by `file_id`, enabled, and
/// stamped with one reading of the current time. An empty list writes
/// nothing.
pub fn save_all(client: &mut Client, token_names: Vec<String>, file_id: u128) -> (r: Result<(), Error>)
    ensures
        r is Ok,
        final(client).file_rows() == old(client).file_rows(),
        final(client).token_rows().len() == old(client).token_rows().len() + token_names@.len(),
        final(client).token_rows().subrange(0, old(client).token_rows().len() as int)
            == old(client).token_rows(),
        is_batch_of(
            final(client).token_rows().subrange(
                old(client).token_rows().len() as int,
                final(client).token_rows().len() as int,
            ),
            token_names@.map_values(|s: String| s@),
            file_id,
        ),
{
    let now = now_utc_nanos();
    let ghost start = client.token_rows();
    let ghost names = token_names@.map_values(|s: String| s@);
    let mut j: usize = 0;
    while j < token_names.len()
        invariant
            j <= token_names@.len(),
            names == token_names@.map_values(|s: String| s@),
            client.file_rows() == old(client).file_rows(),
            start == old(client).token_rows(),
            client.token_rows().len() == start.len() + j,
            client.token_rows().subrange(0, start.len() as int) == start,
            forall|i: int| start.len() <= i < client.token_rows().len() ==> {
                let t = #[trigger] client.token_rows()[i];
                t.name == names[i - start.len()] && t.file_id == file_id && t.enabled
                    && t.created_at == now
            },
        decreases token_names@.len() - j,
    {
        let ghost prev = client.token_rows();
        let id = new_id();
        client.tokens.push(Token { id, name: token_names[j].clone(), created_at: now, file_id, enabled: true });
        proof {
            assert(client.token_rows() =~= prev.push(client.tokens@.last()@));
            assert(client.token_rows().subrange(0, start.len() as int) =~= prev.subrange(0, start.len() as int));
            assert(names[j as int] == token_names@[j as int]@);
        }
        j = j + 1;
    }
    proof {
        let all = client.token_rows();
        let added = all.subrange(start.len() as int, all.len() as int);
        assert forall|i: int| 0 <= i < added.len() implies (#[trigger] added[i]).created_at == now by {
            assert(added[i] == all[i + start.len()]);
        }
        assert forall|i: int| 0 <= i < added.len() implies (#[trigger] added[i]).name == names[i]
            && added[i].file_id == file_id && added[i].enabled by {
            assert(added[i] == all[i + start.len()]);
        }
    }
    Ok(())
}

/// Adding a record under a name that no record has keeps names unique.
proof fn lemma_add_new_name(rows: Seq<FileView>, f: FileView)
    requires
        names_unique(rows),
        !has_name(rows, f.name),
    ensures
        names_unique(rows.push(f)),
{
    let now = rows.push(f);
    assert forall|i: int, k: int|
        0 <= i < now.len() && 0 <= k < now.len() && i != k implies (#[trigger] now[i]).name
        != (#[trigger] now[k]).name by {
        if i < rows.len() && k < rows.len() {
            assert(now[i] == rows[i] && now[k] == rows[k]);
        } else if i < rows.len() {
            assert(now[i] == rows[i]);
        } else {
            assert(now[k] == rows[k]);
        }
    }
}

/// Once `create` has written a record for a name into a store with unique
/// names, that name is taken (so a second `create` of it is refused with
/// `AlreadyExists`), exactly one record carries it, and names stay unique.
pub proof fn lemma_create_is_idempotent(rows: Seq<FileView>, f: FileView)
    requires
        names_unique(rows),
        !has_name(rows, f.name),
    ensures
        has_name(rows.push(f), f.name),
        has_one_named(rows.push(f), f.name),
        names_unique(rows.push(f)),
{
    let now = rows.push(f);
    let last = rows.len() as int;
    assert(now[last] == f);
    lemma_add_new_name(rows, f);
    assert forall|k: int| 0 <= k < now.len() && (#[trigger] now[k]).name == f.name implies k == last by {
        if k < last {
            assert(now[k] == rows[k]);
        }
    }
}

} // verus!
