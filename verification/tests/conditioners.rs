use ptts::conditioners::{stacked_ids, LUTConditioner, Tokenizer};
use ptts::error::TensorError;

#[test]
fn equal_rows_are_stacked_in_order() {
    let (ids, len) = stacked_ids(&[&[1, 2, 3], &[4, 5, 6]]).unwrap();
    assert_eq!((ids, len), (vec![1, 2, 3, 4, 5, 6], 3));
}

#[test]
fn rows_of_different_lengths_are_an_error() {
    let err = stacked_ids(&[&[1, 2], &[3]]).unwrap_err().text;
    assert!(err.contains("[2, 1]"), "{err}");
    assert_eq!(
        err,
        "cannot batch text rows of different lengths [2, 1]: the rows of a batch must have the \
         same number of tokens"
    );
}

#[test]
fn an_empty_batch_has_no_length() {
    assert_eq!(stacked_ids(&[]).unwrap(), (vec![], 0));
}

struct Letters;

impl Tokenizer for Letters {
    fn encode(&self, text: &str) -> Result<Vec<u32>, TensorError> {
        if text.contains('!') {
            return Err(TensorError::msg("no shouting"));
        }
        Ok(text.chars().map(|c| c as u32).collect())
    }

    fn decode(&self, tokens: &[u32]) -> Result<String, TensorError> {
        Ok(tokens.iter().filter_map(|t| char::from_u32(*t)).collect())
    }
}

#[test]
fn the_table_has_room_for_the_padding() {
    let plain = LUTConditioner::<Letters>::load(4000, false, None, 16, 1024);
    assert_eq!((plain.rows, plain.learnt_padding_id()), (4001, None));
    let padded = LUTConditioner::<Letters>::load(4000, true, None, 16, 1024);
    assert_eq!((padded.rows, padded.learnt_padding_id()), (4002, Some(4001)));
}

#[test]
fn text_is_tokenized_by_what_was_supplied() {
    let with = LUTConditioner::load(31, false, Some(Letters), 16, 32);
    assert_eq!(with.tokenize("ab").unwrap(), vec![97, 98]);
    assert_eq!(with.tokenize("ab!").unwrap_err().text, "no shouting");
    let without = LUTConditioner::<Letters>::load(31, false, None, 16, 32);
    assert_eq!(
        without.tokenize("ab").unwrap_err().text,
        "No tokenizer available for LUTConditioner"
    );
}

#[test]
fn lookups_have_the_shape_of_the_batch() {
    let c = LUTConditioner::<Letters>::load(31, false, None, 16, 32);
    let one = c.embed_tokens(&[5, 6, 7]);
    assert_eq!((one.ids, one.shape), (vec![5, 6, 7], [1, 3, 32]));
    // An empty text keeps the width of the table, not that of the projection.
    let none = c.embed_tokens(&[]);
    assert_eq!((none.ids, none.shape), (vec![], [1, 0, 16]));
    let two = c.embed_tokens_batch(&[&[1, 2], &[3, u32::MAX]]).unwrap();
    assert_eq!((two.ids, two.shape), (vec![1, 2, 3, 4294967295], [2, 2, 32]));
    let empty_rows = c.embed_tokens_batch(&[&[], &[]]).unwrap();
    assert_eq!((empty_rows.ids, empty_rows.shape), (vec![], [2, 0, 32]));
    assert_eq!(
        c.embed_tokens_batch(&[]).err().unwrap().text,
        "embed_tokens_batch: the batch is empty"
    );
    assert!(c.embed_tokens_batch(&[&[1], &[]]).is_err());
}
