//! Reports made of one record per line: a key, a number, and perhaps more
//! fields, separated by whitespace.

use crate::decimal::{parse_u64, parse_u64_spec};
use crate::text::{
    chars_of, fields, fields_of, lines, same_chars, split_chars, views, Separator,
};
use vstd::prelude::*;

verus! {

/// Why a report could not be turned into a reading.
#[derive(Clone, Copy, Debug, PartialEq, Eq, Structural)]
pub enum SampleError {
    /// The line with this index (from zero) names a wanted key, and its
    /// second field is not an unsigned decimal number of 64 bits.
    MalformedNumber { line: usize },
    /// A counter times the page size does not fit in 64 bits.
    Overflow,
}

/// The index of the first of `keys` from `from` on that equals `name`;
/// the number of keys where none does.
pub open spec fn find_key(keys: Seq<Seq<char>>, name: Seq<char>, from: int) -> int
    decreases keys.len() - from,
{
    if from < 0 || from >= keys.len() {
        keys.len() as int
    } else if keys[from] == name {
        from
    } else {
        find_key(keys, name, from + 1)
    }
}

/// The values after one line. A line is only taken in when it has exactly
/// `arity` fields, at least two, and its first field is one of `keys`: its
/// second field then replaces the value of that key. `None` where that
/// field is no number.
pub open spec fn after_record(
    values: Seq<u64>,
    line: Seq<char>,
    arity: nat,
    keys: Seq<Seq<char>>,
) -> Option<Seq<u64>> {
    let f = fields(line);
    if arity < 2 || f.len() != arity {
        Some(values)
    } else {
        let j = find_key(keys, f[0], 0);
        if j >= keys.len() {
            Some(values)
        } else {
            match parse_u64_spec(f[1]) {
                Some(v) => Some(values.update(j, v)),
                None => None,
            }
        }
    }
}

/// The values after the lines `ls`, taken in order from all zero: a later
/// line overrides an earlier one, and the first malformed number ends the
/// reading with the index of its line.
pub open spec fn after_records(ls: Seq<Seq<char>>, arity: nat, keys: Seq<Seq<char>>) -> Result<
    Seq<u64>,
    SampleError,
>
    decreases ls.len(),
{
    if ls.len() == 0 {
        Ok(Seq::new(keys.len(), |j: int| 0u64))
    } else {
        match after_records(ls.drop_last(), arity, keys) {
            Err(e) => Err(e),
            Ok(values) => match after_record(values, ls.last(), arity, keys) {
                Some(next) => Ok(next),
                None => Err(SampleError::MalformedNumber { line: (ls.len() - 1) as usize }),
            },
        }
    }
}

/// The values that the report `text` gives to `keys`.
pub open spec fn record_values(text: Seq<char>, arity: nat, keys: Seq<Seq<char>>) -> Result<
    Seq<u64>,
    SampleError,
> {
    after_records(lines(text), arity, keys)
}

/// Once a reading has failed, further lines do not change it.
pub proof fn lemma_error_is_final(ls: Seq<Seq<char>>, n: int, arity: nat, keys: Seq<Seq<char>>)
    requires
        0 <= n <= ls.len(),
        after_records(ls.take(n), arity, keys) is Err,
    ensures
        after_records(ls, arity, keys) == after_records(ls.take(n), arity, keys),
    decreases ls.len(),
{
    if n == ls.len() {
        assert(ls.take(n) == ls);
    } else {
        assert(ls.drop_last().take(n) == ls.take(n));
        lemma_error_is_final(ls.drop_last(), n, arity, keys);
    }
}

/// The index of the key that `name` equals, as [`find_key`] says.
fn key_position(keys: &Vec<Vec<char>>, name: &Vec<char>) -> (j: usize)
    ensures
        j == find_key(views(keys@), name@, 0),
        j <= keys.len(),
{
    let mut j: usize = 0;
    while j < keys.len()
        invariant
            j <= keys.len(),
            find_key(views(keys@), name@, 0) == find_key(views(keys@), name@, j as int),
        decreases keys.len() - j,
    {
        assert(views(keys@)[j as int] == keys@[j as int]@);
        if same_chars(&keys[j], name) {
            return j;
        }
        j += 1;
    }
    j
}

/// Reads the values of `keys` from the report `text`, as [`record_values`]
/// says.
pub fn read_records(text: &str, arity: usize, keys: &Vec<Vec<char>>) -> (r: Result<
    Vec<u64>,
    SampleError,
>)
    ensures
        match r {
            Ok(values) => record_values(text@, arity as nat, views(keys@)) == Ok::<
                Seq<u64>,
                SampleError,
            >(values@) && values@.len() == keys@.len(),
            Err(e) => record_values(text@, arity as nat, views(keys@)) == Err::<
                Seq<u64>,
                SampleError,
            >(e),
        },
{
    let chars = chars_of(text);
    let ls = split_chars(&chars, Separator::Char('\n'));
    let ghost all = views(ls@);
    let ghost ks = views(keys@);
    let mut values: Vec<u64> = Vec::new();
    let mut j: usize = 0;
    while j < keys.len()
        invariant
            j <= keys.len(),
            values@ == Seq::new(j as nat, |j: int| 0u64),
        decreases keys.len() - j,
    {
        values.push(0);
        j += 1;
    }
    assert(all.take(0) == Seq::<Seq<char>>::empty());
    assert(ks.len() == keys.len());
    let mut i: usize = 0;
    while i < ls.len()
        invariant
            i <= ls.len(),
            all == views(ls@),
            all == lines(text@),
            ks == views(keys@),
            values@.len() == keys@.len(),
            after_records(all.take(i as int), arity as nat, ks) == Ok::<Seq<u64>, SampleError>(
                values@,
            ),
        decreases ls.len() - i,
    {
        proof {
            let t = all.take(i + 1);
            assert(t.drop_last() == all.take(i as int));
            assert(t.last() == ls@[i as int]@);
        }
        let f = fields_of(&ls[i]);
        if arity >= 2 && f.len() == arity {
            assert(views(f@)[0] == f@[0]@);
            assert(views(f@)[1] == f@[1]@);
            let k = key_position(keys, &f[0]);
            if k < keys.len() {
                match parse_u64(&f[1]) {
                    Some(v) => {
                        values.set(k, v);
                    },
                    None => {
                        proof {
                            let t = all.take(i + 1);
                            assert(fields(t.last()) == views(f@));
                            assert(after_record(values@, t.last(), arity as nat, ks) is None);
                            assert(after_records(t, arity as nat, ks) == Err::<
                                Seq<u64>,
                                SampleError,
                            >(SampleError::MalformedNumber { line: i }));
                            lemma_error_is_final(all, i + 1, arity as nat, ks);
                        }
                        return Err(SampleError::MalformedNumber { line: i });
                    },
                }
            }
        }
        i += 1;
    }
    assert(all.take(ls.len() as int) == all);
    Ok(values)
}

} // verus!
