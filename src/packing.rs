//! Packing of tokenized texts into the one flat batch that the local
//! inference backend takes: all tokens side by side, with the offsets at
//! which each text starts and ends.
use vstd::prelude::*;
use crate::embedding::EmbedError;

verus! {

/// A loaded tokenizer, which the library only hands to the tokenizer crate.
#[verifier::external_type_specification]
#[verifier::external_body]
pub struct ExTokenizer(tokenizers::Tokenizer);

/// One text after tokenization: its token ids and their type ids, one each
/// per token.
pub struct TokenizedText {
    pub ids: Vec<u32>,
    pub type_ids: Vec<u32>,
}

/// The flat batch: the tokens of all texts one after the other, with
/// `cumulative_seq_lengths` marking where each text starts and ends.
pub struct PackedBatch {
    pub input_ids: Vec<u32>,
    pub token_type_ids: Vec<u32>,
    pub position_ids: Vec<u32>,
    pub cumulative_seq_lengths: Vec<u32>,
    pub max_length: u32,
    pub pooled_indices: Vec<u32>,
    pub raw_indices: Vec<u32>,
}

/// The sequences one after the other.
pub open spec fn concat(s: Seq<Seq<u32>>) -> Seq<u32>
    decreases s.len(),
{
    if s.len() == 0 {
        Seq::empty()
    } else {
        concat(s.drop_last()) + s.last()
    }
}

/// The positions `0, 1, ..., n - 1`.
pub open spec fn positions(n: nat) -> Seq<u32> {
    Seq::new(n, |i: int| i as u32)
}

pub open spec fn ids_of(t: Seq<TokenizedText>) -> Seq<Seq<u32>> {
    t.map_values(|x: TokenizedText| x.ids@)
}

pub open spec fn type_ids_of(t: Seq<TokenizedText>) -> Seq<Seq<u32>> {
    t.map_values(|x: TokenizedText| x.type_ids@)
}

pub open spec fn positions_of(t: Seq<TokenizedText>) -> Seq<Seq<u32>> {
    t.map_values(|x: TokenizedText| positions(x.ids@.len()))
}

/// The number of tokens of all texts.
pub open spec fn total_tokens(t: Seq<TokenizedText>) -> nat
    decreases t.len(),
{
    if t.len() == 0 {
        0
    } else {
        total_tokens(t.drop_last()) + t.last().ids@.len()
    }
}

/// The length of the longest text, 0 where there is none.
pub open spec fn longest(t: Seq<TokenizedText>) -> nat
    decreases t.len(),
{
    if t.len() == 0 {
        0
    } else {
        let m = longest(t.drop_last());
        if t.last().ids@.len() > m {
            t.last().ids@.len()
        } else {
            m
        }
    }
}

/// Each text has one type id per token.
pub open spec fn well_formed(t: Seq<TokenizedText>) -> bool {
    forall|i: int| 0 <= i < t.len() ==> (#[trigger] t[i]).ids@.len() == t[i].type_ids@.len()
}

pub proof fn lemma_prefix_total(t: Seq<TokenizedText>, j: int)
    requires
        0 <= j <= t.len(),
    ensures
        total_tokens(t.subrange(0, j)) <= total_tokens(t),
        longest(t.subrange(0, j)) <= total_tokens(t),
    decreases t.len(),
{
    if j == t.len() {
        assert(t.subrange(0, j) =~= t);
        lemma_longest_le_total(t);
    } else {
        lemma_prefix_total(t.drop_last(), j);
        assert(t.drop_last().subrange(0, j) =~= t.subrange(0, j));
    }
}

pub proof fn lemma_longest_le_total(t: Seq<TokenizedText>)
    ensures
        longest(t) <= total_tokens(t),
    decreases t.len(),
{
    if t.len() > 0 {
        lemma_longest_le_total(t.drop_last());
    }
}

fn append_all(dst: &mut Vec<u32>, src: &Vec<u32>)
    ensures
        final(dst)@ == old(dst)@ + src@,
{
    let ghost start = dst@;
    let mut k: usize = 0;
    while k < src.len()
        invariant
            k <= src@.len(),
            dst@ == start + src@.subrange(0, k as int),
        decreases src.len() - k,
    {
        dst.push(src[k]);
        k = k + 1;
        assert(dst@ =~= start + src@.subrange(0, k as int));
    }
    assert(src@.subrange(0, k as int) =~= src@);
}

fn append_positions(dst: &mut Vec<u32>, n: u32)
    ensures
        final(dst)@ == old(dst)@ + positions(n as nat),
{
    let ghost start = dst@;
    let mut k: u32 = 0;
    while k < n
        invariant
            k <= n,
            dst@ == start + positions(k as nat),
        decreases n - k,
    {
        dst.push(k);
        k = k + 1;
        assert(dst@ =~= start + positions(k as nat));
    }
}

/// `b` holds the tokens of `t` one text after the other, the offsets at
/// which each text starts and ends, the length of the longest text, and asks
/// for one pooled embedding per text and for no per-token one.
pub open spec fn is_packing_of(t: Seq<TokenizedText>, b: PackedBatch) -> bool {
    &&& b.input_ids@ == concat(ids_of(t))
    &&& b.token_type_ids@ == concat(type_ids_of(t))
    &&& b.position_ids@ == concat(positions_of(t))
    &&& b.cumulative_seq_lengths@.len() == t.len() + 1
    &&& forall|j: int|
        0 <= j <= t.len() ==> #[trigger] b.cumulative_seq_lengths@[j] == total_tokens(
            t.subrange(0, j),
        )
    &&& b.max_length == longest(t)
    &&& b.pooled_indices@ == Seq::new(t.len(), |i: int| i as u32)
    &&& b.raw_indices@ == Seq::<u32>::empty()
}

/// Packs the texts into one batch that asks for a pooled embedding of each.
pub fn pack_batch(texts: &Vec<TokenizedText>) -> (r: PackedBatch)
    requires
        well_formed(texts@),
        total_tokens(texts@) <= u32::MAX,
        texts@.len() <= u32::MAX,
    ensures
        is_packing_of(texts@, r),
{
    let mut input_ids: Vec<u32> = Vec::new();
    let mut token_type_ids: Vec<u32> = Vec::new();
    let mut position_ids: Vec<u32> = Vec::new();
    let mut cumulative_seq_lengths: Vec<u32> = Vec::new();
    let mut pooled_indices: Vec<u32> = Vec::new();
    let mut max_length: u32 = 0;
    let mut cumulative: u32 = 0;
    cumulative_seq_lengths.push(0);
    assert(texts@.subrange(0, 0) =~= Seq::<TokenizedText>::empty());
    let mut i: usize = 0;
    while i < texts.len()
        invariant
            i <= texts@.len(),
            well_formed(texts@),
            total_tokens(texts@) <= u32::MAX,
            texts@.len() <= u32::MAX,
            input_ids@ == concat(ids_of(texts@.subrange(0, i as int))),
            token_type_ids@ == concat(type_ids_of(texts@.subrange(0, i as int))),
            position_ids@ == concat(positions_of(texts@.subrange(0, i as int))),
            cumulative == total_tokens(texts@.subrange(0, i as int)),
            max_length == longest(texts@.subrange(0, i as int)),
            cumulative_seq_lengths@.len() == i + 1,
            forall|j: int|
                0 <= j <= i ==> #[trigger] cumulative_seq_lengths@[j] == total_tokens(
                    texts@.subrange(0, j),
                ),
            pooled_indices@ == Seq::new(i as nat, |k: int| k as u32),
        decreases texts.len() - i,
    {
        let text = &texts[i];
        let ghost prefix = texts@.subrange(0, i as int + 1);
        proof {
            assert(prefix.drop_last() =~= texts@.subrange(0, i as int));
            assert(prefix.last() == *text);
            assert(ids_of(prefix).drop_last() =~= ids_of(texts@.subrange(0, i as int)));
            assert(type_ids_of(prefix).drop_last() =~= type_ids_of(texts@.subrange(0, i as int)));
            assert(positions_of(prefix).drop_last() =~= positions_of(
                texts@.subrange(0, i as int),
            ));
            lemma_prefix_total(texts@, i as int + 1);
        }
        let length = text.ids.len() as u32;
        append_all(&mut input_ids, &text.ids);
        append_all(&mut token_type_ids, &text.type_ids);
        append_positions(&mut position_ids, length);
        cumulative = cumulative + length;
        cumulative_seq_lengths.push(cumulative);
        if length > max_length {
            max_length = length;
        }
        pooled_indices.push(i as u32);
        i = i + 1;
        assert(pooled_indices@ =~= Seq::new(i as nat, |k: int| k as u32));
    }
    assert(texts@.subrange(0, i as int) =~= texts@);
    PackedBatch {
        input_ids,
        token_type_ids,
        position_ids,
        cumulative_seq_lengths,
        max_length,
        pooled_indices,
        raw_indices: Vec::new(),
    }
}

/// Relies on `tokenizers::Tokenizer::encode_batch` with special tokens: one
/// encoding per text, in order, each with one type id per token id; on
/// failure, the tokenizer's message.
#[verifier::external_body]
fn tokenize_batch(tokenizer: &tokenizers::Tokenizer, texts: Vec<String>) -> (r: Result<
    Vec<TokenizedText>,
    String,
>)
    ensures
        r matches Ok(v) ==> v@.len() == texts@.len() && well_formed(v@),
{
    match tokenizer.encode_batch(texts, true) {
        Ok(encodings) => Ok(
            encodings.iter().map(
                |e| TokenizedText { ids: e.get_ids().to_vec(), type_ids: e.get_type_ids().to_vec() },
            ).collect(),
        ),
        Err(e) => Err(e.to_string()),
    }
}

/// The number of tokens of all texts, where it fits in a `u32`.
pub fn checked_total_tokens(texts: &Vec<TokenizedText>) -> (r: Option<u32>)
    ensures
        r is Some <==> total_tokens(texts@) <= u32::MAX,
        r matches Some(t) ==> t == total_tokens(texts@),
{
    let mut total: u32 = 0;
    let mut i: usize = 0;
    while i < texts.len()
        invariant
            i <= texts@.len(),
            total == total_tokens(texts@.subrange(0, i as int)),
        decreases texts.len() - i,
    {
        let ghost prefix = texts@.subrange(0, i as int + 1);
        proof {
            assert(prefix.drop_last() =~= texts@.subrange(0, i as int));
            lemma_prefix_total(texts@, i as int + 1);
        }
        let length = texts[i].ids.len();
        if length > (u32::MAX - total) as usize {
            return None;
        }
        total = total + length as u32;
        i = i + 1;
    }
    assert(texts@.subrange(0, i as int) =~= texts@);
    Some(total)
}

/// Packs tokenized texts, where their tokens and their number fit the
/// backend's `u32` counts.
pub fn pack_tokenized(texts: &Vec<TokenizedText>) -> (r: Result<PackedBatch, EmbedError>)
    requires
        well_formed(texts@),
    ensures
        r is Ok <==> total_tokens(texts@) <= u32::MAX && texts@.len() <= u32::MAX,
        r matches Ok(b) ==> is_packing_of(texts@, b),
        r is Err ==> r matches Err(EmbedError::TooManyTokens),
{
    if texts.len() > u32::MAX as usize {
        return Err(EmbedError::TooManyTokens);
    }
    match checked_total_tokens(texts) {
        Some(_) => Ok(pack_batch(texts)),
        None => Err(EmbedError::TooManyTokens),
    }
}

/// Tokenizes the texts and packs them into one batch for the local backend.
/// Fails where the tokenizer fails, or where the batch has more tokens or
/// texts than a `u32` counts.
pub fn prepare_local_batch(tokenizer: &tokenizers::Tokenizer, texts: Vec<String>) -> (r: Result<
    PackedBatch,
    EmbedError,
>)
    ensures
        texts@.len() > u32::MAX ==> r matches Err(EmbedError::TooManyTokens),
        r is Err ==> (r matches Err(EmbedError::TooManyTokens) || r matches Err(
            EmbedError::Tokenization(_),
        )),
        r matches Ok(b) ==> {
            &&& b.pooled_indices@ == Seq::new(texts@.len(), |i: int| i as u32)
            &&& b.cumulative_seq_lengths@.len() == texts@.len() + 1
            &&& b.cumulative_seq_lengths@[0] == 0
            &&& b.raw_indices@.len() == 0
            &&& b.input_ids@.len() == b.position_ids@.len()
            &&& b.input_ids@.len() == b.token_type_ids@.len()
            &&& b.input_ids@.len() == b.cumulative_seq_lengths@[texts@.len() as int]
        },
{
    if texts.len() > u32::MAX as usize {
        return Err(EmbedError::TooManyTokens);
    }
    let n = texts.len();
    let encoded = match tokenize_batch(tokenizer, texts) {
        Ok(v) => v,
        Err(message) => {
            return Err(EmbedError::Tokenization(message));
        },
    };
    let r = pack_tokenized(&encoded);
    proof {
        assert(encoded@.subrange(0, 0) =~= Seq::<TokenizedText>::empty());
        assert(encoded@.subrange(0, n as int) =~= encoded@);
        lemma_concat_lengths(encoded@);
    }
    r
}

/// The three token sequences of a batch have one entry per token.
pub proof fn lemma_concat_lengths(t: Seq<TokenizedText>)
    requires
        well_formed(t),
    ensures
        concat(ids_of(t)).len() == total_tokens(t),
        concat(type_ids_of(t)).len() == total_tokens(t),
        concat(positions_of(t)).len() == total_tokens(t),
    decreases t.len(),
{
    if t.len() > 0 {
        let p = t.drop_last();
        assert(ids_of(t).drop_last() =~= ids_of(p));
        assert(type_ids_of(t).drop_last() =~= type_ids_of(p));
        assert(positions_of(t).drop_last() =~= positions_of(p));
        assert(well_formed(p)) by {
            assert forall|i: int| 0 <= i < p.len() implies (#[trigger] p[i]).ids@.len()
                == p[i].type_ids@.len() by {
                assert(p[i] == t[i]);
            }
        }
        lemma_concat_lengths(p);
        assert(t[t.len() - 1] == t.last());
    }
}

} // verus!
