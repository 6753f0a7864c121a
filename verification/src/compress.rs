//! Column-store compression: the per-column encodings applied to a
//! store's value stream before it is persisted. Encoding and decoding
//! round-trip exactly: the ensures of `encode_column` pins the decoded
//! meaning of its output to the input values, and `decode_column`
//! recovers exactly that meaning. Compression never changes the logical
//! value contract.

use vstd::prelude::*;

use crate::types::{CompressionType, DbError, Value, ValueView};

verus! {

/// A column's value stream under one of the supported encodings:
/// unencoded, run-length collapsed, or dictionary coded.
#[derive(Debug)]
pub enum EncodedColumn {
    Plain(Vec<Value>),
    Rle(Vec<(u64, Value)>),
    Dict { values: Vec<Value>, codes: Vec<u64> },
}

/// `n` copies of one value.
pub open spec fn repeat(v: ValueView, n: nat) -> Seq<ValueView> {
    Seq::new(n, |i: int| v)
}

/// The value stream a run-length encoding denotes.
pub open spec fn rle_expand(runs: Seq<(u64, ValueView)>) -> Seq<ValueView>
    decreases runs.len(),
{
    if runs.len() == 0 {
        Seq::empty()
    } else {
        rle_expand(runs.drop_last()) + repeat(runs.last().1, runs.last().0 as nat)
    }
}

/// The value stream an encoded column denotes; `None` when a dictionary
/// code points outside the dictionary.
pub open spec fn decoded(e: EncodedColumn) -> Option<Seq<ValueView>> {
    match e {
        EncodedColumn::Plain(vs) => Some(vs.deep_view()),
        EncodedColumn::Rle(runs) => Some(
            rle_expand(runs@.map_values(|p: (u64, Value)| (p.0, p.1@))),
        ),
        EncodedColumn::Dict { values, codes } => {
            if forall|k: int| 0 <= k < codes@.len() ==> (#[trigger] codes@[k]) < values@.len() {
                Some(codes@.map_values(|c: u64| values@[c as int]@))
            } else {
                Option::None
            }
        },
    }
}

/// Whether two values denote the same mathematical value.
fn value_repr_eq(a: &Value, b: &Value) -> (r: bool)
    ensures
        r == (a@ == b@),
{
    match (a, b) {
        (Value::Int32(x), Value::Int32(y)) => *x == *y,
        (Value::Float32(x), Value::Float32(y)) => *x == *y,
        (Value::String(x), Value::String(y)) => crate::types::str_eq(x.as_str(), y.as_str()),
        _ => false,
    }
}

/// Encodes a column's values under the chosen compression. The result
/// decodes to exactly the input values: consecutive duplicates collapse
/// into runs, and the dictionary maps distinct values to small codes.
pub fn encode_column(values: &Vec<Value>, compression: &CompressionType) -> (r: EncodedColumn)
    ensures
        decoded(r) == Some(values.deep_view()),
        (r is Plain <==> *compression == CompressionType::Plain),
        (r is Rle <==> *compression == CompressionType::Rle),
        (r is Dict <==> *compression == CompressionType::Dictionary),
{
    let n = values.len();
    match compression {
        CompressionType::Plain => {
            let mut out: Vec<Value> = Vec::new();
            let mut i: usize = 0;
            while i < n
                invariant
                    0 <= i <= n,
                    n == values@.len(),
                    out@.len() == i,
                    forall|k: int| 0 <= k < i ==> (#[trigger] out@[k])@ == values@[k]@,
                decreases n - i,
            {
                out.push(values[i].clone());
                i = i + 1;
            }
            proof {
                assert(out.deep_view() =~= values.deep_view());
            }
            EncodedColumn::Plain(out)
        },
        CompressionType::Rle => {
            let mut runs: Vec<(u64, Value)> = Vec::new();
            let mut i: usize = 0;
            proof {
                assert(rle_expand(runs@.map_values(|p: (u64, Value)| (p.0, p.1@)))
                    =~= values.deep_view().take(0));
            }
            while i < n
                invariant
                    0 <= i <= n,
                    n == values@.len(),
                    rle_expand(runs@.map_values(|p: (u64, Value)| (p.0, p.1@)))
                        == values.deep_view().take(i as int),
                    forall|k: int| 0 <= k < runs@.len() ==> (#[trigger] runs@[k]).0 <= i,
                decreases n - i,
            {
                let ghost pre = runs@.map_values(|p: (u64, Value)| (p.0, p.1@));
                let extend = match runs.pop() {
                    Some(last) => {
                        if value_repr_eq(&last.1, &values[i]) {
                            let count = last.0;
                            runs.push((count + 1, last.1));
                            true
                        } else {
                            runs.push(last);
                            false
                        }
                    },
                    None => false,
                };
                if !extend {
                    runs.push((1, values[i].clone()));
                }
                proof {
                    let post = runs@.map_values(|p: (u64, Value)| (p.0, p.1@));
                    let target = values.deep_view().take(i as int + 1);
                    assert(values.deep_view().take(i as int + 1) =~= values.deep_view().take(
                        i as int,
                    ).push(values@[i as int]@));
                    if extend {
                        let lastp = pre.last();
                        assert(post =~= pre.drop_last().push(((lastp.0 + 1) as u64, lastp.1)));
                        assert(post.drop_last() =~= pre.drop_last());
                        assert(post.last() == (((lastp.0 + 1) as u64), lastp.1));
                        assert(rle_expand(post) == rle_expand(post.drop_last()) + repeat(
                            post.last().1,
                            post.last().0 as nat,
                        ));
                        assert(rle_expand(post) =~= rle_expand(pre.drop_last()) + repeat(
                            lastp.1,
                            (lastp.0 + 1) as nat,
                        ));
                        assert(repeat(lastp.1, (lastp.0 + 1) as nat) =~= repeat(
                            lastp.1,
                            lastp.0 as nat,
                        ).push(lastp.1));
                        assert(rle_expand(post) =~= (rle_expand(pre.drop_last()) + repeat(
                            lastp.1,
                            lastp.0 as nat,
                        )).push(lastp.1));
                        assert(rle_expand(pre.drop_last()) + repeat(lastp.1, lastp.0 as nat)
                            =~= rle_expand(pre));
                        assert(lastp.1 == values@[i as int]@);
                        assert(rle_expand(post) =~= target);
                    } else {
                        assert(post.drop_last() =~= pre);
                        assert(post.last() == (1u64, values@[i as int]@));
                        assert(rle_expand(post) =~= rle_expand(pre) + repeat(
                            values@[i as int]@,
                            1,
                        ));
                        assert(repeat(values@[i as int]@, 1) =~= seq![values@[i as int]@]);
                        assert(rle_expand(post) =~= target);
                    }
                }
                i = i + 1;
            }
            proof {
                assert(values.deep_view().take(n as int) =~= values.deep_view());
            }
            EncodedColumn::Rle(runs)
        },
        CompressionType::Dictionary => {
            let mut dict: Vec<Value> = Vec::new();
            let mut codes: Vec<u64> = Vec::new();
            let mut i: usize = 0;
            while i < n
                invariant
                    0 <= i <= n,
                    n == values@.len(),
                    codes@.len() == i,
                    dict@.len() <= i,
                    forall|k: int| 0 <= k < i ==> (#[trigger] codes@[k]) < dict@.len(),
                    forall|k: int|
                        0 <= k < i ==> dict@[(#[trigger] codes@[k]) as int]@ == values@[k]@,
                decreases n - i,
            {
                let nd = dict.len();
                let mut found: Option<usize> = None;
                let mut d: usize = 0;
                while d < nd
                    invariant
                        0 <= d <= nd,
                        nd == dict@.len(),
                        i < n,
                        n == values@.len(),
                        match found {
                            Some(c) => c < nd && dict@[c as int]@ == values@[i as int]@,
                            None => true,
                        },
                    decreases nd - d,
                {
                    if matches!(found, None) {
                        if value_repr_eq(&dict[d], &values[i]) {
                            found = Some(d);
                        }
                    }
                    d = d + 1;
                }
                match found {
                    Some(c) => {
                        codes.push(c as u64);
                    },
                    None => {
                        dict.push(values[i].clone());
                        codes.push(nd as u64);
                    },
                }
                i = i + 1;
            }
            proof {
                assert(codes@.map_values(|c: u64| dict@[c as int]@) =~= values.deep_view());
            }
            EncodedColumn::Dict { values: dict, codes }
        },
    }
}

/// Decodes an encoded column back to its value stream. Succeeds exactly
/// when the encoding denotes one (every dictionary code in range) and
/// returns exactly the denoted values.
pub fn decode_column(encoded: &EncodedColumn) -> (r: Result<Vec<Value>, DbError>)
    ensures
        match decoded(*encoded) {
            Some(vs) => r matches Ok(out) && out.deep_view() == vs,
            Option::None => r matches Err(e) && e matches DbError::SerializationError(_),
        },
{
    match encoded {
        EncodedColumn::Plain(vs) => {
            let n = vs.len();
            let mut out: Vec<Value> = Vec::new();
            let mut i: usize = 0;
            while i < n
                invariant
                    0 <= i <= n,
                    n == vs@.len(),
                    out@.len() == i,
                    forall|k: int| 0 <= k < i ==> (#[trigger] out@[k])@ == vs@[k]@,
                decreases n - i,
            {
                out.push(vs[i].clone());
                i = i + 1;
            }
            proof {
                assert(out.deep_view() =~= vs.deep_view());
            }
            Ok(out)
        },
        EncodedColumn::Rle(runs) => {
            let n = runs.len();
            let mut out: Vec<Value> = Vec::new();
            let mut i: usize = 0;
            proof {
                assert(runs@.map_values(|p: (u64, Value)| (p.0, p.1@)).take(0)
                    =~= Seq::<(u64, ValueView)>::empty());
                assert(out.deep_view() =~= rle_expand(
                    runs@.map_values(|p: (u64, Value)| (p.0, p.1@)).take(0),
                ));
            }
            while i < n
                invariant
                    0 <= i <= n,
                    n == runs@.len(),
                    out.deep_view() == rle_expand(
                        runs@.map_values(|p: (u64, Value)| (p.0, p.1@)).take(i as int),
                    ),
                decreases n - i,
            {
                let run = runs[i].0;
                let ghost pre_full = out.deep_view();
                let mut t: u64 = 0;
                while t < run
                    invariant
                        0 <= t <= run,
                        i < n,
                        n == runs@.len(),
                        run == runs@[i as int].0,
                        out.deep_view() == pre_full + repeat(runs@[i as int].1@, t as nat),
                    decreases run - t,
                {
                    let ghost pre_vec = out@;
                    let ghost pre_deep = out.deep_view();
                    out.push(runs[i].1.clone());
                    proof {
                        assert(out.deep_view() =~= pre_deep.push(runs@[i as int].1@)) by {
                            assert(out.deep_view().len() == out@.len());
                            assert(forall|q: int|
                                0 <= q < pre_vec.len() ==> out@[q] == pre_vec[q]);
                            assert(forall|q: int|
                                0 <= q < pre_vec.len() ==> pre_deep[q] == pre_vec[q]@);
                            assert(out@[pre_vec.len() as int]@ == runs@[i as int].1@);
                        }
                        assert(out.deep_view() =~= pre_full + repeat(
                            runs@[i as int].1@,
                            (t + 1) as nat,
                        )) by {
                            assert(repeat(runs@[i as int].1@, (t + 1) as nat) =~= repeat(
                                runs@[i as int].1@,
                                t as nat,
                            ).push(runs@[i as int].1@));
                        }
                    }
                    t = t + 1;
                }
                proof {
                    let m = runs@.map_values(|p: (u64, Value)| (p.0, p.1@));
                    assert(m.take(i as int + 1).drop_last() =~= m.take(i as int));
                    assert(m.take(i as int + 1).last() == (runs@[i as int].0, runs@[i as int].1@));
                    assert(rle_expand(m.take(i as int + 1)) =~= rle_expand(m.take(i as int))
                        + repeat(runs@[i as int].1@, runs@[i as int].0 as nat));
                }
                i = i + 1;
            }
            proof {
                let m = runs@.map_values(|p: (u64, Value)| (p.0, p.1@));
                assert(m.take(n as int) =~= m);
            }
            Ok(out)
        },
        EncodedColumn::Dict { values, codes } => {
            let nd = values.len();
            let nc = codes.len();
            let mut out: Vec<Value> = Vec::new();
            let mut i: usize = 0;
            while i < nc
                invariant
                    *encoded == (EncodedColumn::Dict { values: *values, codes: *codes }),
                    0 <= i <= nc,
                    nc == codes@.len(),
                    nd == values@.len(),
                    out@.len() == i,
                    forall|k: int| 0 <= k < i ==> (#[trigger] codes@[k]) < nd,
                    forall|k: int|
                        0 <= k < i ==> (#[trigger] out@[k])@ == values@[codes@[k] as int]@,
                decreases nc - i,
            {
                let code = codes[i];
                if code >= nd as u64 {
                    proof {
                        assert(codes@[i as int] >= values@.len());
                        assert(decoded(*encoded) is None) by {
                            assert(!(forall|k: int|
                                0 <= k < codes@.len() ==> (#[trigger] codes@[k])
                                    < values@.len())) by {
                                assert((i as int) < codes@.len());
                                assert(!(codes@[i as int] < values@.len()));
                            }
                        }
                    }
                    return Err(
                        DbError::SerializationError(
                            String::from_str("dictionary code out of range"),
                        ),
                    );
                }
                out.push(values[code as usize].clone());
                i = i + 1;
            }
            proof {
                assert(decoded(*encoded) is Some) by {
                    assert(forall|k: int|
                        0 <= k < codes@.len() ==> (#[trigger] codes@[k]) < values@.len());
                }
                assert(out.deep_view() =~= codes@.map_values(|c: u64| values@[c as int]@)) by {
                    assert(forall|k: int|
                        0 <= k < out@.len() ==> (#[trigger] out.deep_view()[k]) == out@[k]@);
                }
            }
            Ok(out)
        },
    }
}

} // verus!
