//! The decisions of the vector store: which table an operation works on,
//! and the records that one ingestion appends.
use vstd::prelude::*;
use crate::metadata::{Metadata, encode_metadata, json_text_of};

verus! {

/// One stored record: a fresh identifier, the chunk's text, its embedding
/// and its metadata as JSON text.
pub struct Record<V> {
    pub id: String,
    pub text: String,
    pub vector: Vec<V>,
    pub metadata: String,
}

/// Why the store refuses an operation.
pub enum StoreError {
    /// The embedding batch does not hold one vector per text.
    CountMismatch { texts: usize, vectors: usize },
    /// The vector of row `row` does not have the table's dimension.
    DimensionMismatch { row: usize, expected: usize, found: usize },
    /// No table of that name exists.
    TableNotFound,
}

/// What an ingestion does to reach its table.
pub enum TableAction {
    /// The table exists: it is opened as it is.
    Open,
    /// The table is new: it is created with this vector dimension.
    Create { dimension: usize },
}

pub open spec fn names_view(names: Seq<String>) -> Seq<Seq<char>> {
    names.map_values(|s: String| s@)
}

fn contains_name(names: &Vec<String>, name: &String) -> (r: bool)
    ensures
        r == names_view(names@).contains(name@),
{
    let mut i: usize = 0;
    while i < names.len()
        invariant
            i <= names@.len(),
            forall|j: int| 0 <= j < i ==> names@[j]@ != name@,
        decreases names.len() - i,
    {
        if names[i] == *name {
            assert(names_view(names@)[i as int] == name@);
            return true;
        }
        i = i + 1;
    }
    assert(!names_view(names@).contains(name@)) by {
        if names_view(names@).contains(name@) {
            let j = choose|j: int| 0 <= j < names@.len() && names_view(names@)[j] == name@;
            assert(names@[j]@ == name@);
        }
    }
    false
}

/// What an ingestion into `name` does, given the names of the existing
/// tables.
pub open spec fn action_for(existing: Seq<Seq<char>>, name: Seq<char>, dimension: usize) -> TableAction {
    if existing.contains(name) {
        TableAction::Open
    } else {
        TableAction::Create { dimension }
    }
}

/// The names of the tables after `action` on `name`.
pub open spec fn names_after(existing: Seq<Seq<char>>, name: Seq<char>, action: TableAction) -> Seq<
    Seq<char>,
> {
    match action {
        TableAction::Open => existing,
        TableAction::Create { .. } => existing.push(name),
    }
}

/// Once a table exists, every later ingestion into its name opens it as it
/// is, whatever dimension that ingestion would ask for: opening never
/// changes a table's schema.
pub proof fn lemma_existing_table_is_opened(
    existing: Seq<Seq<char>>,
    name: Seq<char>,
    first: usize,
    second: usize,
)
    ensures
        ({
            let after = names_after(existing, name, action_for(existing, name, first));
            &&& after.contains(name)
            &&& action_for(after, name, second) == TableAction::Open
            &&& names_after(after, name, action_for(after, name, second)) == after
        }),
{
    if !existing.contains(name) {
        assert(existing.push(name)[existing.len() as int] == name);
    }
}

/// Starting from no table, creating `a` and then `b` leaves exactly the
/// tables `a` and `b`.
pub proof fn lemma_created_tables_listed(a: Seq<char>, b: Seq<char>, da: usize, db: usize)
    requires
        a != b,
    ensures
        ({
            let empty = Seq::<Seq<char>>::empty();
            let one = names_after(empty, a, action_for(empty, a, da));
            let two = names_after(one, b, action_for(one, b, db));
            two.to_set() == set![a, b]
        }),
{
    let empty = Seq::<Seq<char>>::empty();
    let one = names_after(empty, a, action_for(empty, a, da));
    assert(one =~= seq![a]);
    assert(!one.contains(b)) by {
        if one.contains(b) {
            assert(one[0] == a);
        }
    }
    let two = names_after(one, b, action_for(one, b, db));
    assert(two =~= seq![a, b]);
    assert(two.to_set() =~= set![a, b]) by {
        assert(two[0] == a);
        assert(two[1] == b);
    }
}

/// Opens the table where one of that name exists, whatever the dimension
/// asked for; creates it with that dimension otherwise.
pub fn table_action(existing: &Vec<String>, name: &String, dimension: usize) -> (r: TableAction)
    ensures
        r == action_for(names_view(existing@), name@, dimension),
{
    if contains_name(existing, name) {
        TableAction::Open
    } else {
        TableAction::Create { dimension }
    }
}

/// A search works on an existing table only.
pub fn search_table(existing: &Vec<String>, name: &String) -> (r: Result<(), StoreError>)
    ensures
        r is Ok <==> names_view(existing@).contains(name@),
        r is Err ==> r == Err::<(), StoreError>(StoreError::TableNotFound),
{
    if contains_name(existing, name) {
        Ok(())
    } else {
        Err(StoreError::TableNotFound)
    }
}

/// The dimension of an embedding batch: the length of its first vector.
pub fn batch_dimension<V>(vectors: &Vec<Vec<V>>) -> (r: Option<usize>)
    ensures
        vectors@.len() == 0 ==> r is None,
        vectors@.len() > 0 ==> r == Some(vectors@[0]@.len() as usize),
{
    if vectors.len() == 0 {
        None
    } else {
        Some(vectors[0].len())
    }
}

/// The metadata text stored with row `i`: the JSON text of its metadata, or
/// the empty object where fewer metadata than rows were given.
pub open spec fn stored_metadata_text(metadatas: Seq<Metadata>, i: int) -> Seq<char> {
    if i < metadatas.len() {
        json_text_of(metadatas[i]@)
    } else {
        "{}"@
    }
}

/// Relies on `uuid::Uuid::new_v4` and the hyphenated text form of a UUID,
/// which has 36 characters.
#[verifier::external_body]
fn fresh_id() -> (r: String)
    ensures
        r@.len() == 36,
{
    uuid::Uuid::new_v4().to_string()
}

pub fn metadata_text(metadatas: &Vec<Metadata>, i: usize) -> (r: String)
    ensures
        r@ == stored_metadata_text(metadatas@, i as int),
{
    if i < metadatas.len() {
        encode_metadata(&metadatas[i])
    } else {
        proof {
            reveal_strlit("{}");
        }
        "{}".to_string()
    }
}

/// All vectors have the dimension `dim`.
pub open spec fn all_have_dimension<V>(vectors: Seq<Vec<V>>, dim: nat) -> bool {
    forall|j: int| 0 <= j < vectors.len() ==> #[trigger] vectors[j]@.len() == dim
}

/// The records that one ingestion appends to a table of dimension
/// `table_dim`: one per text, in order, or an error and no record at all.
pub fn build_records<V>(
    table_dim: usize,
    texts: &Vec<String>,
    vectors: Vec<Vec<V>>,
    metadatas: &Vec<Metadata>,
) -> (r: Result<Vec<Record<V>>, StoreError>)
    ensures
        r is Ok <==> texts@.len() == vectors@.len() && all_have_dimension(
            vectors@,
            table_dim as nat,
        ),
        texts@.len() != vectors@.len() ==> r == Err::<Vec<Record<V>>, StoreError>(
            StoreError::CountMismatch { texts: texts@.len() as usize, vectors: vectors@.len() as usize },
        ),
        r matches Err(StoreError::DimensionMismatch { row, expected, found }) ==> {
            &&& texts@.len() == vectors@.len()
            &&& row < vectors@.len()
            &&& expected == table_dim
            &&& found == vectors@[row as int]@.len()
            &&& found != table_dim
            &&& forall|j: int| 0 <= j < row ==> #[trigger] vectors@[j]@.len() == table_dim
        },
        r is Err ==> (r matches Err(StoreError::CountMismatch { .. }) || r matches Err(
            StoreError::DimensionMismatch { .. },
        )),
        r matches Ok(records) ==> {
            &&& records@.len() == texts@.len()
            &&& forall|i: int|
                0 <= i < records@.len() ==> {
                    &&& (#[trigger] records@[i]).text == texts@[i]
                    &&& records@[i].vector == vectors@[i]
                    &&& records@[i].metadata@ == stored_metadata_text(metadatas@, i)
                    &&& records@[i].id@.len() == 36
                }
        },
{
    if texts.len() != vectors.len() {
        return Err(StoreError::CountMismatch { texts: texts.len(), vectors: vectors.len() });
    }
    let mut j: usize = 0;
    while j < vectors.len()
        invariant
            j <= vectors@.len(),
            texts@.len() == vectors@.len(),
            forall|k: int| 0 <= k < j ==> #[trigger] vectors@[k]@.len() == table_dim,
        decreases vectors.len() - j,
    {
        if vectors[j].len() != table_dim {
            return Err(
                StoreError::DimensionMismatch { row: j, expected: table_dim, found: vectors[j].len() },
            );
        }
        j = j + 1;
    }
    let ghost all = vectors@;
    let n = vectors.len();
    let mut rest = vectors;
    let mut records: Vec<Record<V>> = Vec::new();
    let mut i: usize = 0;
    while i < n
        invariant
            n == all.len(),
            n == texts@.len(),
            i <= n,
            rest@ == all.subrange(i as int, n as int),
            records@.len() == i,
            forall|k: int|
                0 <= k < i ==> {
                    &&& (#[trigger] records@[k]).text == texts@[k]
                    &&& records@[k].vector == all[k]
                    &&& records@[k].metadata@ == stored_metadata_text(metadatas@, k)
                    &&& records@[k].id@.len() == 36
                },
        decreases n - i,
    {
        let vector = rest.remove(0);
        records.push(
            Record {
                id: fresh_id(),
                text: texts[i].clone(),
                vector,
                metadata: metadata_text(metadatas, i),
            },
        );
        i = i + 1;
        assert(rest@ =~= all.subrange(i as int, n as int));
    }
    Ok(records)
}

} // verus!
