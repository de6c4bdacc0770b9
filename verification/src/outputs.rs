use vstd::prelude::*;

use crate::errors::OracleError;
use crate::hexutil::{parse_b256, parse_b256_padded, parse_hex_to_b256, parse_hex_to_b256_padded};

verus! {

/// One entry of a transaction's output list, as handed over from the raw
/// document: a plain key field and a tagged-key field, either of which may
/// be missing.
pub struct TxOut {
    pub key: Option<String>,
    pub tagged_key: Option<String>,
}

/// The ring-confidential-signature fields the extractor reads: the
/// encrypted-amount list and the commitment list, parallel to the output
/// list. A missing list stands for an empty one.
pub struct RctSig {
    pub ecdh_amounts: Option<Vec<String>>,
    pub out_pk: Option<Vec<String>>,
}

/// The body of one fetched transaction. A transaction missing its output
/// list or its signature field contributes no records.
pub struct TxBody {
    pub vout: Option<Vec<TxOut>>,
    pub rct: Option<RctSig>,
}

/// One fetched transaction: its hash as hexadecimal text, and its body, or
/// nothing where the raw document could not be read as a transaction.
pub struct FetchedTx {
    pub tx_hash: String,
    pub body: Option<TxBody>,
}

/// One normalized output record; every byte field holds exactly 32 bytes.
pub struct MoneroOutput {
    pub tx_hash: Vec<u8>,
    pub output_index: u64,
    pub ecdh_amount: Vec<u8>,
    pub output_pub_key: Vec<u8>,
    pub commitment: Vec<u8>,
}

/// The mathematical shadow of one output record.
pub ghost struct OutputModel {
    pub tx_hash: Seq<u8>,
    pub output_index: u64,
    pub ecdh_amount: Seq<u8>,
    pub output_pub_key: Seq<u8>,
    pub commitment: Seq<u8>,
}

impl View for MoneroOutput {
    type V = OutputModel;

    open spec fn view(&self) -> OutputModel {
        OutputModel {
            tx_hash: self.tx_hash@,
            output_index: self.output_index,
            ecdh_amount: self.ecdh_amount@,
            output_pub_key: self.output_pub_key@,
            commitment: self.commitment@,
        }
    }
}

/// The record models of a sequence of records.
pub open spec fn output_views(s: Seq<MoneroOutput>) -> Seq<OutputModel> {
    s.map_values(|o: MoneroOutput| o@)
}

/// The output list of a body; a missing list stands for an empty one.
pub open spec fn vout_of(body: TxBody) -> Seq<TxOut> {
    match body.vout {
        Some(v) => v@,
        None => Seq::empty(),
    }
}

/// The encrypted-amount list of a body; missing stands for empty.
pub open spec fn ecdh_of(body: TxBody) -> Seq<String> {
    match body.rct {
        Some(r) => match r.ecdh_amounts {
            Some(v) => v@,
            None => Seq::empty(),
        },
        None => Seq::empty(),
    }
}

/// The commitment list of a body; missing stands for empty.
pub open spec fn out_pk_of(body: TxBody) -> Seq<String> {
    match body.rct {
        Some(r) => match r.out_pk {
            Some(v) => v@,
            None => Seq::empty(),
        },
        None => Seq::empty(),
    }
}

/// The public key text an output resolves to: the plain field first, else
/// the tagged field, else nothing.
pub open spec fn out_key(o: TxOut) -> Option<Seq<char>> {
    match o.key {
        Some(k) => Some(k@),
        None => match o.tagged_key {
            Some(t) => Some(t@),
            None => None,
        },
    }
}

/// Whether output `i` of a body yields a record: its key resolves and both
/// parallel lists have an entry at index `i`.
pub open spec fn output_wanted(body: TxBody, i: int) -> bool {
    out_key(vout_of(body)[i]) is Some && i < ecdh_of(body).len() && i < out_pk_of(body).len()
}

/// The record that output `i` of a transaction with hash text `txh` parses
/// to, or nothing on a malformed hexadecimal field.
pub open spec fn parse_output_record(txh: Seq<char>, body: TxBody, i: int) -> Option<OutputModel> {
    match out_key(vout_of(body)[i]) {
        None => None,
        Some(key) => match (
            parse_b256(txh),
            parse_b256_padded(ecdh_of(body)[i]@),
            parse_b256(key),
            parse_b256(out_pk_of(body)[i]@),
        ) {
            (Some(th), Some(ea), Some(pk), Some(cm)) => Some(
                OutputModel {
                    tx_hash: th,
                    output_index: i as u64,
                    ecdh_amount: ea,
                    output_pub_key: pk,
                    commitment: cm,
                },
            ),
            _ => None,
        },
    }
}

/// Records contributed by outputs `i..` of one transaction. `None` stands
/// for a malformed hexadecimal field in a wanted output, which aborts the
/// whole extraction; an unwanted output is skipped and contributes nothing.
pub open spec fn tx_records_from(txh: Seq<char>, body: TxBody, i: int) -> Option<Seq<OutputModel>>
    decreases vout_of(body).len() - i,
{
    if i < 0 || i >= vout_of(body).len() {
        Some(Seq::empty())
    } else if !output_wanted(body, i) {
        tx_records_from(txh, body, i + 1)
    } else {
        match parse_output_record(txh, body, i) {
            None => None,
            Some(m) => match tx_records_from(txh, body, i + 1) {
                None => None,
                Some(rest) => Some(seq![m] + rest),
            },
        }
    }
}

/// Records contributed by one fetched transaction: none where the document
/// was unreadable or a value-transfer field is missing entirely.
pub open spec fn tx_records(tx: FetchedTx) -> Option<Seq<OutputModel>> {
    match tx.body {
        None => Some(Seq::empty()),
        Some(body) => if body.vout is None || body.rct is None {
            Some(Seq::empty())
        } else {
            tx_records_from(tx.tx_hash@, body, 0)
        },
    }
}

/// Records of a whole block: transactions in order, outputs in index order
/// within each transaction. `None` stands for a malformed hexadecimal field
/// in any wanted output.
pub open spec fn extract_spec(txs: Seq<FetchedTx>) -> Option<Seq<OutputModel>>
    decreases txs.len(),
{
    if txs.len() == 0 {
        Some(Seq::empty())
    } else {
        match tx_records(txs[0]) {
            None => None,
            Some(h) => match extract_spec(txs.skip(1)) {
                None => None,
                Some(t) => Some(h + t),
            },
        }
    }
}

/// An output whose key resolves to nothing is skipped on its own: the
/// records of a transaction are exactly those of the outputs after it,
/// and no error can arise from it.
pub proof fn lemma_keyless_output_skipped(txh: Seq<char>, body: TxBody, i: int)
    requires
        0 <= i < vout_of(body).len(),
        out_key(vout_of(body)[i]) is None,
    ensures
        tx_records_from(txh, body, i) == tx_records_from(txh, body, i + 1),
{
    assert(!output_wanted(body, i));
}

/// Convert the outputs of one fetched transaction into records, in
/// output-index order, skipping outputs that resolve no key or lack a
/// parallel entry, and failing only on a malformed hexadecimal field.
pub fn extract_tx_outputs(tx: &FetchedTx) -> (r: Result<Vec<MoneroOutput>, OracleError>)
    ensures
        match tx_records(*tx) {
            Some(ms) => r matches Ok(v) && output_views(v@) == ms,
            None => r matches Err(e) && e is Encoding,
        },
{
    let body: &TxBody = match &tx.body {
        None => {
            let v: Vec<MoneroOutput> = Vec::new();
            proof {
                assert(output_views(v@) =~= Seq::<OutputModel>::empty());
            }
            return Ok(v);
        },
        Some(b) => b,
    };
    let vout: &Vec<TxOut> = match &body.vout {
        None => {
            let v: Vec<MoneroOutput> = Vec::new();
            proof {
                assert(output_views(v@) =~= Seq::<OutputModel>::empty());
            }
            return Ok(v);
        },
        Some(v) => v,
    };
    let rct: &RctSig = match &body.rct {
        None => {
            let v: Vec<MoneroOutput> = Vec::new();
            proof {
                assert(output_views(v@) =~= Seq::<OutputModel>::empty());
            }
            return Ok(v);
        },
        Some(r) => r,
    };
    let ghost txh = tx.tx_hash@;
    let mut acc: Vec<MoneroOutput> = Vec::new();
    let mut i: usize = 0;
    let n = vout.len();
    proof {
        assert(vout_of(*body) == vout@);
        if tx_records_from(txh, *body, 0) is Some {
            let rest = tx_records_from(txh, *body, 0)->0;
            assert(output_views(acc@) + rest =~= rest);
        }
    }
    while i < n
        invariant
            n == vout@.len(),
            i <= n,
            txh == tx.tx_hash@,
            tx.body == Some(*body),
            body.vout == Some(*vout),
            body.rct == Some(*rct),
            tx_records_from(txh, *body, 0) == (match tx_records_from(txh, *body, i as int) {
                None => None::<Seq<OutputModel>>,
                Some(rest) => Some(output_views(acc@) + rest),
            }),
        decreases n - i,
    {
        let o: &TxOut = &vout[i];
        let key_ref: Option<&String> = match &o.key {
            Some(k) => Some(k),
            None => match &o.tagged_key {
                Some(t) => Some(t),
                None => None,
            },
        };
        let ecdh_i: Option<&String> = match &rct.ecdh_amounts {
            Some(v) => if i < v.len() {
                Some(&v[i])
            } else {
                None
            },
            None => None,
        };
        let pk_i: Option<&String> = match &rct.out_pk {
            Some(v) => if i < v.len() {
                Some(&v[i])
            } else {
                None
            },
            None => None,
        };
        match (key_ref, ecdh_i, pk_i) {
            (Some(key), Some(ea), Some(cm)) => {
                proof {
                    assert(output_wanted(*body, i as int));
                    assert(out_key(vout_of(*body)[i as int]) == Some(key@));
                    assert(*ea == ecdh_of(*body)[i as int]);
                    assert(*cm == out_pk_of(*body)[i as int]);
                }
                let th = match parse_hex_to_b256(tx.tx_hash.as_str()) {
                    Ok(v) => v,
                    Err(_) => {
                        return Err(OracleError::Encoding);
                    },
                };
                let eav = match parse_hex_to_b256_padded(ea.as_str()) {
                    Ok(v) => v,
                    Err(_) => {
                        return Err(OracleError::Encoding);
                    },
                };
                let pkv = match parse_hex_to_b256(key.as_str()) {
                    Ok(v) => v,
                    Err(_) => {
                        return Err(OracleError::Encoding);
                    },
                };
                let cmv = match parse_hex_to_b256(cm.as_str()) {
                    Ok(v) => v,
                    Err(_) => {
                        return Err(OracleError::Encoding);
                    },
                };
                let rec = MoneroOutput {
                    tx_hash: th,
                    output_index: i as u64,
                    ecdh_amount: eav,
                    output_pub_key: pkv,
                    commitment: cmv,
                };
                proof {
                    assert(parse_output_record(txh, *body, i as int) == Some(rec@));
                    if tx_records_from(txh, *body, i as int + 1) is Some {
                        let rest = tx_records_from(txh, *body, i as int + 1)->0;
                        assert(output_views(acc@.push(rec)) + rest =~= output_views(acc@) + (seq![
                            rec@,
                        ] + rest));
                    }
                }
                acc.push(rec);
            },
            _ => {
                proof {
                    assert(!output_wanted(*body, i as int));
                    assert(tx_records_from(txh, *body, i as int) == tx_records_from(
                        txh,
                        *body,
                        i as int + 1,
                    ));
                }
            },
        }
        i = i + 1;
    }
    proof {
        assert(tx_records_from(txh, *body, n as int) == Some(Seq::<OutputModel>::empty()));
        assert(output_views(acc@) + Seq::<OutputModel>::empty() =~= output_views(acc@));
    }
    Ok(acc)
}

/// Extract the normalized records of a whole block from its fetched
/// transactions, in block order then output-index order.
pub fn extract_outputs(txs: &Vec<FetchedTx>) -> (r: Result<Vec<MoneroOutput>, OracleError>)
    ensures
        match extract_spec(txs@) {
            Some(ms) => r matches Ok(v) && output_views(v@) == ms,
            None => r matches Err(e) && e is Encoding,
        },
{
    let mut all: Vec<MoneroOutput> = Vec::new();
    let mut t: usize = 0;
    proof {
        assert(txs@.skip(0) =~= txs@);
        if extract_spec(txs@) is Some {
            let rest = extract_spec(txs@)->0;
            assert(output_views(all@) + rest =~= rest);
        }
    }
    while t < txs.len()
        invariant
            t <= txs@.len(),
            extract_spec(txs@) == (match extract_spec(txs@.skip(t as int)) {
                None => None::<Seq<OutputModel>>,
                Some(rest) => Some(output_views(all@) + rest),
            }),
        decreases txs@.len() - t,
    {
        proof {
            assert(txs@.skip(t as int)[0] == txs@[t as int]);
            assert(txs@.skip(t as int).skip(1) =~= txs@.skip(t as int + 1));
        }
        match extract_tx_outputs(&txs[t]) {
            Ok(mut v) => {
                proof {
                    let ghost here = output_views(v@);
                    if extract_spec(txs@.skip(t as int + 1)) is Some {
                        let rest = extract_spec(txs@.skip(t as int + 1))->0;
                        assert(output_views(all@ + v@) =~= output_views(all@) + output_views(v@));
                        assert(output_views(all@) + (here + rest) =~= output_views(all@ + v@)
                            + rest);
                    }
                }
                all.append(&mut v);
            },
            Err(e) => {
                return Err(e);
            },
        }
        t = t + 1;
    }
    proof {
        assert(extract_spec(txs@.skip(txs@.len() as int)) == Some(Seq::<OutputModel>::empty()));
        assert(output_views(all@) + Seq::<OutputModel>::empty() =~= output_views(all@));
    }
    Ok(all)
}

} // verus!
