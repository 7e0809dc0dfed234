//! Text conditioning: token ids and the table they are looked up in.
use crate::error::{Cause, TensorError};
use crate::text;
use vstd::prelude::*;
use vstd::string::*;

verus! {

/// What turns text into token ids, and back.
pub trait Tokenizer {
    fn encode(&self, text: &str) -> std::result::Result<Vec<u32>, TensorError>;

    fn decode(&self, tokens: &[u32]) -> std::result::Result<String, TensorError>;
}

/// The embedding table of a text conditioner: how its rows are laid out, and what tokenizes text
/// for it.
pub struct LUTConditioner<T> {
    pub tokenizer: Option<T>,
    /// Rows of the table, the learnt padding among them.
    pub rows: usize,
    pub learnt_padding_id: Option<u32>,
    pub dim: usize,
    pub output_dim: usize,
}

/// The shape of the embeddings of some tokens, and the rows they are looked up from. No rows are
/// looked up for an empty text.
pub struct Lookup {
    pub ids: Vec<i64>,
    pub shape: [usize; 3],
}

/// Token ids as table rows.
pub open spec fn as_rows(ids: Seq<u32>) -> Seq<i64> {
    Seq::new(ids.len(), |i: int| ids[i] as i64)
}

/// The ids of a batch, one text after the other.
pub open spec fn stacked(rows: Seq<Seq<u32>>) -> Seq<i64>
    decreases rows.len(),
{
    if rows.len() == 0 {
        Seq::empty()
    } else {
        stacked(rows.drop_last()) + as_rows(rows.last())
    }
}

/// The texts of a batch.
pub open spec fn rows_of(rows: Seq<&[u32]>) -> Seq<Seq<u32>> {
    Seq::new(rows.len(), |i: int| rows[i]@)
}

/// How long the first text of a batch is.
pub open spec fn first_len(rows: Seq<Seq<u32>>) -> nat {
    if rows.len() > 0 {
        rows[0].len()
    } else {
        0
    }
}

/// All texts of a batch have the same length.
pub open spec fn even(rows: Seq<Seq<u32>>) -> bool {
    forall|i: int| 0 <= i < rows.len() ==> (#[trigger] rows[i]).len() == first_len(rows)
}

/// The lengths of the texts of a batch.
pub open spec fn lens_of(rows: Seq<&[u32]>) -> Seq<usize> {
    Seq::new(rows.len(), |i: int| rows[i]@.len() as usize)
}

/// What a batch of uneven rows is refused with.
pub open spec fn uneven(rows: Seq<&[u32]>) -> Seq<char> {
    "cannot batch text rows of different lengths "@ + text::bracketed(lens_of(rows))
        + ": the rows of a batch must have the same number of tokens"@
}

/// Lays `rows` out as one `[B, len]` block of ids, or fails if they differ in length.
pub fn stacked_ids(rows: &[&[u32]]) -> (r: std::result::Result<(Vec<i64>, usize), TensorError>)
    ensures
        match r {
            Ok((ids, len)) => even(rows_of(rows@)) && ids@ == stacked(rows_of(rows@)) && len
                == first_len(rows_of(rows@)),
            Err(e) => !even(rows_of(rows@)) && e.text@ == uneven(rows@) && e.cause == Cause::Other,
        },
{
    let ghost all = rows_of(rows@);
    let len: usize = if rows.len() > 0 {
        rows[0].len()
    } else {
        0
    };
    let mut lens: Vec<usize> = Vec::new();
    let mut ids: Vec<i64> = Vec::new();
    let mut same = true;
    assert(all.take(0) =~= Seq::<Seq<u32>>::empty());
    for i in 0..rows.len()
        invariant
            all == rows_of(rows@),
            len == first_len(all),
            lens@ == lens_of(rows@).take(i as int),
            ids@ == stacked(all.take(i as int)),
            same == (forall|j: int| 0 <= j < i ==> (#[trigger] all[j]).len() == len),
    {
        let row = rows[i];
        lens.push(row.len());
        assert(all[i as int] == row@);
        if row.len() != len {
            same = false;
        }
        let ghost before = ids@;
        for k in 0..row.len()
            invariant
                ids@ == before + as_rows(row@).take(k as int),
        {
            ids.push(row[k] as i64);
            assert(as_rows(row@).take(k + 1) =~= as_rows(row@).take(k as int).push(
                row@[k as int] as i64,
            ));
        }
        assert(as_rows(row@).take(row@.len() as int) =~= as_rows(row@));
        assert(all.take(i + 1).drop_last() =~= all.take(i as int));
        assert(lens_of(rows@).take(i + 1) =~= lens_of(rows@).take(i as int).push(row@.len() as usize));
    }
    assert(all.take(rows@.len() as int) =~= all);
    assert(lens_of(rows@).take(rows@.len() as int) =~= lens_of(rows@));
    if !same {
        return Err(
            TensorError {
                text: text::glue3(
                    "cannot batch text rows of different lengths ",
                    text::list_of(&lens).as_str(),
                    ": the rows of a batch must have the same number of tokens",
                ),
                cause: Cause::Other,
            },
        );
    }
    Ok((ids, len))
}

/// A batch holds as many ids as its rows times their length.
pub proof fn a_batch_is_a_block(rows: Seq<Seq<u32>>, len: nat)
    requires
        forall|i: int| 0 <= i < rows.len() ==> (#[trigger] rows[i]).len() == len,
    ensures
        stacked(rows).len() == rows.len() * len,
        forall|i: int, j: int|
            0 <= i < rows.len() && 0 <= j < len ==> stacked(rows)[i * len + j]
                == #[trigger] rows[i][j] as i64,
    decreases rows.len(),
{
    if rows.len() > 0 {
        let init = rows.drop_last();
        assert forall|i: int| 0 <= i < init.len() implies (#[trigger] init[i]).len() == len by {
            assert(rows[i].len() == len);
        }
        a_batch_is_a_block(init, len);
        let n = rows.len();
        assert(rows[n - 1].len() == len);
        assert(n * len == (n - 1) * len + len) by (nonlinear_arith);
        assert forall|i: int, j: int| 0 <= i < n && 0 <= j < len implies stacked(rows)[i * len + j]
            == #[trigger] rows[i][j] as i64 by {
            if i < n - 1 {
                assert(init[i][j] == rows[i][j]);
                assert(i * len + j < (n - 1) * len) by (nonlinear_arith)
                    requires
                        0 <= i < n - 1,
                        0 <= j < len,
                ;
                assert(i * len + j >= 0) by (nonlinear_arith)
                    requires
                        0 <= i,
                        0 <= j,
                ;
            }
        }
    }
}

impl<T> LUTConditioner<T> {
    /// A table of `n_bins + 1` rows, with the learnt padding behind them when the checkpoint has
    /// one.
    pub fn load(
        n_bins: usize,
        has_padding: bool,
        tokenizer: Option<T>,
        dim: usize,
        output_dim: usize,
    ) -> (r: Self)
        requires
            n_bins < u32::MAX,
            n_bins + 2 <= usize::MAX,
        ensures
            r.tokenizer == tokenizer,
            r.dim == dim,
            r.output_dim == output_dim,
            r.rows == n_bins + 1 + (if has_padding {
                1int
            } else {
                0
            }),
            r.learnt_padding_id == (if has_padding {
                Some((n_bins + 1) as u32)
            } else {
                None
            }),
    {
        if has_padding {
            LUTConditioner {
                tokenizer,
                rows: n_bins + 2,
                learnt_padding_id: Some(n_bins as u32 + 1),
                dim,
                output_dim,
            }
        } else {
            LUTConditioner { tokenizer, rows: n_bins + 1, learnt_padding_id: None, dim, output_dim }
        }
    }

    pub fn learnt_padding_id(&self) -> (r: Option<u32>)
        ensures
            r == self.learnt_padding_id,
    {
        self.learnt_padding_id
    }

    /// How the embeddings of token ids are looked up: `[1, num_tokens, dim]`.
    pub fn embed_tokens(&self, token_ids: &[u32]) -> (r: Lookup)
        ensures
            r.ids@ == as_rows(token_ids@),
            r.shape@ == (if token_ids@.len() == 0 {
                seq![1usize, 0, self.dim]
            } else {
                seq![1usize, token_ids@.len() as usize, self.output_dim]
            }),
    {
        let n: usize = token_ids.len();
        if n == 0 {
            let ids: Vec<i64> = Vec::new();
            assert(ids@ =~= as_rows(token_ids@));
            return Lookup { ids, shape: [1, 0, self.dim] };
        }
        let mut ids: Vec<i64> = Vec::new();
        for i in 0..n
            invariant
                n == token_ids@.len(),
                ids@ == as_rows(token_ids@).take(i as int),
        {
            ids.push(token_ids[i] as i64);
            assert(as_rows(token_ids@).take(i + 1) =~= as_rows(token_ids@).take(i as int).push(
                token_ids@[i as int] as i64,
            ));
        }
        assert(as_rows(token_ids@).take(n as int) =~= as_rows(token_ids@));
        Lookup { ids, shape: [1, n, self.output_dim] }
    }

    /// How several token sequences of the same length are looked up as one batch:
    /// `[B, len, dim]`.
    ///
    /// The rows must have the same number of tokens: every row of a state sits at the same
    /// position, and the model has no inert token to pad a shorter row with. Its learnt padding
    /// embedding is a real input that changes what it says, so rows of different lengths are an
    /// error rather than padded.
    pub fn embed_tokens_batch(&self, rows: &[&[u32]]) -> (r: std::result::Result<
        Lookup,
        TensorError,
    >)
        ensures
            match r {
                Ok(lookup) => rows@.len() > 0 && even(rows_of(rows@)) && lookup.ids@ == stacked(
                    rows_of(rows@),
                ) && lookup.shape@ == seq![
                    rows@.len() as usize,
                    first_len(rows_of(rows@)) as usize,
                    self.output_dim,
                ],
                Err(e) => e.cause == Cause::Other && if rows@.len() == 0 {
                    e.text@ == "embed_tokens_batch: the batch is empty"@
                } else {
                    !even(rows_of(rows@)) && e.text@ == uneven(rows@)
                },
            },
    {
        if rows.len() == 0 {
            return Err(TensorError::msg("embed_tokens_batch: the batch is empty"));
        }
        match stacked_ids(rows) {
            Ok((ids, len)) => Ok(Lookup { ids, shape: [rows.len(), len, self.output_dim] }),
            Err(e) => Err(e),
        }
    }
}

impl<T: Tokenizer> LUTConditioner<T> {
    /// Tokenize text and return token ids: whatever the tokenizer gives for this text.
    pub fn tokenize(&self, text: &str) -> (r: std::result::Result<Vec<u32>, TensorError>)
        ensures
            match self.tokenizer {
                Some(t) => call_ensures(T::encode, (&t, text), r),
                None => r matches Err(e) && e.text@
                    == "No tokenizer available for LUTConditioner"@ && e.cause == Cause::Other,
            },
    {
        match &self.tokenizer {
            Some(t) => t.encode(text),
            None => Err(TensorError::msg("No tokenizer available for LUTConditioner")),
        }
    }
}

/// A batch looks its tokens up row by row: the token at place `j` of text `i` is where a block of
/// that shape has it. Only an empty batch and texts of different lengths are refused.
pub proof fn a_batch_looks_up_every_token<T>(
    table: LUTConditioner<T>,
    rows: &[&[u32]],
    r: std::result::Result<Lookup, TensorError>,
)
    requires
        call_ensures(LUTConditioner::<T>::embed_tokens_batch, (&table, rows), r),
    ensures
        r is Ok <==> rows@.len() > 0 && forall|i: int|
            0 <= i < rows@.len() ==> (#[trigger] rows@[i])@.len() == rows@[0]@.len(),
        r matches Ok(found) ==> {
            let len = rows@[0]@.len();
            &&& found.shape@ == seq![rows@.len() as usize, len as usize, table.output_dim]
            &&& found.ids@.len() == rows@.len() * len
            &&& forall|i: int, j: int|
                0 <= i < rows@.len() && 0 <= j < len ==> found.ids@[i * len + j]
                    == #[trigger] rows@[i]@[j]
        },
{
    let all = rows_of(rows@);
    if rows@.len() > 0 {
        assert(all[0] == rows@[0]@);
        let len = rows@[0]@.len();
        assert(first_len(all) == len);
        if even(all) {
            assert forall|i: int| 0 <= i < rows@.len() implies (#[trigger] rows@[i])@.len()
                == len by {
                assert(all[i].len() == first_len(all));
            }
            a_batch_is_a_block(all, len);
            assert forall|i: int, j: int| 0 <= i < rows@.len() && 0 <= j < len implies stacked(
                all,
            )[i * len + j] == #[trigger] rows@[i]@[j] by {
                assert(all[i][j] == rows@[i]@[j]);
            }
        }
        if forall|i: int| 0 <= i < rows@.len() ==> (#[trigger] rows@[i])@.len() == len {
            assert forall|i: int| 0 <= i < all.len() implies (#[trigger] all[i]).len() == first_len(
                all,
            ) by {
                assert(rows@[i]@.len() == len);
            }
        }
    }
}

/// A text is looked up alone as it is in a batch of its own.
pub proof fn a_batch_of_one_is_the_text<T>(
    table: LUTConditioner<T>,
    text: &[u32],
    rows: &[&[u32]],
    alone: Lookup,
    batched: std::result::Result<Lookup, TensorError>,
)
    requires
        text@.len() > 0,
        rows@ == seq![text],
        call_ensures(LUTConditioner::<T>::embed_tokens, (&table, text), alone),
        call_ensures(LUTConditioner::<T>::embed_tokens_batch, (&table, rows), batched),
    ensures
        batched matches Ok(found) && found.ids@ == alone.ids@ && found.shape@ == alone.shape@,
        alone.ids@.len() == text@.len(),
        forall|i: int| 0 <= i < text@.len() ==> alone.ids@[i] == #[trigger] text@[i],
{
    let all = rows_of(rows@);
    assert(all.len() == 1 && all[0] == text@);
    assert forall|i: int| 0 <= i < all.len() implies (#[trigger] all[i]).len() == first_len(
        all,
    ) by {}
    assert(all.drop_last() =~= Seq::<Seq<u32>>::empty());
    assert(stacked(Seq::<Seq<u32>>::empty()) =~= Seq::<i64>::empty());
    assert(stacked(all) =~= as_rows(text@));
}

/// The learnt padding, where there is one, is the last row of the table, behind those of all tokens.
pub proof fn the_padding_is_the_last_row<T>(
    n_bins: usize,
    has_padding: bool,
    tokenizer: Option<T>,
    dim: usize,
    output_dim: usize,
    table: LUTConditioner<T>,
)
    requires
        n_bins < u32::MAX,
        call_ensures(
            LUTConditioner::<T>::load,
            (n_bins, has_padding, tokenizer, dim, output_dim),
            table,
        ),
    ensures
        has_padding <==> table.learnt_padding_id is Some,
        table.learnt_padding_id matches Some(id) ==> id == table.rows - 1 && id > n_bins,
        !has_padding ==> table.rows == n_bins + 1,
{
}

} // verus!
