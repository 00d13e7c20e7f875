//! What the embedding engine does with what a backend hands back: vectors
//! put back in the order of the texts, and a batch checked for shape.
use vstd::prelude::*;

verus! {

/// Why an embedding batch is refused.
pub enum EmbedError {
    /// The backend answered with a number of vectors other than that of the
    /// texts.
    WrongCount { expected: usize, found: usize },
    /// Vector `row` does not have the length of the first vector.
    RaggedDimension { row: usize, expected: usize, found: usize },
    /// The tokenizer refused a text.
    Tokenization(String),
    /// The batch has more tokens or texts than the backend's `u32` counts.
    TooManyTokens,
}

/// The value that the backend gave for text `i`: the last pooled entry of
/// index `i`, or `None` where there is none.
pub open spec fn slot_value<T>(entries: Seq<(usize, Option<T>)>, i: int) -> Option<T>
    decreases entries.len(),
{
    if entries.len() == 0 {
        None
    } else if entries.last().0 == i && entries.last().1 is Some {
        entries.last().1
    } else {
        slot_value(entries.drop_last(), i)
    }
}

/// Puts the backend's entries, each an index and a pooled vector (`None`
/// for an entry of another kind), in the order of the `n` texts; a text
/// that no entry names gets `None`.
pub fn order_by_index<T>(n: usize, entries: Vec<(usize, Option<T>)>) -> (r: Vec<Option<T>>)
    ensures
        r@.len() == n,
        forall|i: int| 0 <= i < n ==> #[trigger] r@[i] == slot_value(entries@, i),
{
    let mut results: Vec<Option<T>> = Vec::new();
    let mut k: usize = 0;
    while k < n
        invariant
            k <= n,
            results@.len() == k,
            forall|i: int| 0 <= i < k ==> #[trigger] results@[i] is None,
        decreases n - k,
    {
        results.push(None);
        k = k + 1;
    }
    let ghost all = entries@;
    let mut rest = entries;
    while rest.len() > 0
        invariant
            results@.len() == n,
            forall|i: int|
                0 <= i < n ==> slot_value(all, i) == match #[trigger] results@[i] {
                    Some(v) => Some(v),
                    None => slot_value(rest@, i),
                },
        decreases rest.len(),
    {
        let ghost before = rest@;
        let entry = rest.pop().unwrap();
        assert(rest@ == before.drop_last());
        let (idx, value) = entry;
        if idx < results.len() && results[idx].is_none() && value.is_some() {
            results.set(idx, value);
        }
    }
    results
}

/// All vectors have the length of the first.
pub open spec fn uniform<T>(vectors: Seq<Vec<T>>) -> bool {
    forall|j: int| 0 <= j < vectors.len() ==> #[trigger] vectors[j]@.len() == vectors[0]@.len()
}

/// Accepts a batch of vectors as the embeddings of `n` texts: one vector
/// per text, all of one length.
pub fn check_batch<T>(n: usize, vectors: Vec<Vec<T>>) -> (r: Result<Vec<Vec<T>>, EmbedError>)
    ensures
        r is Ok <==> vectors@.len() == n && uniform(vectors@),
        r matches Ok(v) ==> v@ == vectors@,
        vectors@.len() != n ==> r == Err::<Vec<Vec<T>>, EmbedError>(
            EmbedError::WrongCount { expected: n, found: vectors@.len() as usize },
        ),
        r matches Err(EmbedError::RaggedDimension { row, expected, found }) ==> {
            &&& vectors@.len() == n
            &&& 0 < row < n
            &&& expected == vectors@[0]@.len()
            &&& found == vectors@[row as int]@.len()
            &&& found != expected
            &&& forall|j: int| 0 <= j < row ==> #[trigger] vectors@[j]@.len() == expected
        },
{
    if vectors.len() != n {
        return Err(EmbedError::WrongCount { expected: n, found: vectors.len() });
    }
    if n == 0 {
        return Ok(vectors);
    }
    let expected = vectors[0].len();
    let mut j: usize = 1;
    while j < n
        invariant
            1 <= j <= n,
            vectors@.len() == n,
            expected == vectors@[0]@.len(),
            forall|k: int| 0 <= k < j ==> #[trigger] vectors@[k]@.len() == expected,
        decreases n - j,
    {
        if vectors[j].len() != expected {
            return Err(EmbedError::RaggedDimension { row: j, expected, found: vectors[j].len() });
        }
        j = j + 1;
    }
    Ok(vectors)
}

} // verus!
