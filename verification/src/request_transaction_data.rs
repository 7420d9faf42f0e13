//! Transaction-data request and response for a block template: a request by
//! template id, answered either with the opaque excess data and transaction
//! blobs or with a template-id-not-found error.

use vstd::prelude::*;
use crate::bounded::{copy_bytes, enc_elems, views_of, Str0255, B016M, B064K, Seq064K, MAX_0255,
    MAX_016M, MAX_064K};
use crate::codec::{
    le_enc, parse_bytes, parse_uint, read_bytes, read_uint, write_bytes, write_prefix, write_uint,
    CodecError,
};
use crate::codec::{
    lemma_le_enc_len, lemma_le_val_bound, lemma_parse_bytes_at, lemma_parse_bytes_take,
    lemma_parse_uint_at, lemma_parse_uint_take, lemma_pow256_values,
};

verus! {

/// A downstream's request for the transaction data of a block template,
/// by template id. The coinbase transaction is excluded from that data.
#[derive(Clone, Copy, Debug, PartialEq, Eq, Structural)]
pub struct RequestTransactionData {
    /// Identifier of the template the transaction data is requested for.
    pub template_id: u64,
}

/// Parse of a [`RequestTransactionData`] wire form; trailing bytes are left
/// unread.
pub open spec fn parse_request_transaction_data(b: Seq<u8>) -> Result<
    (RequestTransactionData, int),
    CodecError,
> {
    match parse_uint(b, 0, 8) {
        Err(e) => Err(e),
        Ok((tid, p1)) => Ok((RequestTransactionData { template_id: tid as u64 }, p1)),
    }
}

impl RequestTransactionData {
    /// Wire form: the template id alone.
    pub open spec fn encoded(self) -> Seq<u8> {
        le_enc(self.template_id as nat, 8)
    }

    /// Exact byte length of the wire form.
    pub fn get_size(&self) -> (r: usize)
        ensures
            r == self.encoded().len(),
    {
        proof {
            lemma_le_enc_len(self.template_id as nat, 8);
        }
        8
    }

    /// Encodes the message.
    pub fn encode(&self) -> (r: Vec<u8>)
        ensures
            r@ == self.encoded(),
    {
        proof {
            lemma_pow256_values();
        }
        let mut out: Vec<u8> = Vec::new();
        write_uint(&mut out, self.template_id, 8);
        out
    }

    /// Writes the wire form over the start of a caller-preallocated buffer;
    /// fails, writing nothing, when the buffer is smaller than the encoding.
    pub fn encode_into(&self, out: &mut Vec<u8>) -> (r: Result<usize, CodecError>)
        ensures
            match r {
                Ok(n) => {
                    &&& n == self.encoded().len()
                    &&& final(out)@.len() == old(out)@.len()
                    &&& final(out)@ == self.encoded() + old(out)@.skip(n as int)
                },
                Err(e) => {
                    &&& e == CodecError::BufferTooSmall
                    &&& final(out)@ == old(out)@
                    &&& old(out)@.len() < self.encoded().len()
                },
            },
    {
        let tmp = self.encode();
        write_prefix(out, &tmp)
    }

    /// Decodes a message from the start of `b`, exactly as
    /// [`parse_request_transaction_data`] describes.
    pub fn decode(b: &Vec<u8>) -> (r: Result<(RequestTransactionData, usize), CodecError>)
        ensures
            match r {
                Ok(t) => {
                    &&& parse_request_transaction_data(b@) == Ok::<
                        (RequestTransactionData, int),
                        CodecError,
                    >((t.0, t.1 as int))
                    &&& t.1 <= b@.len()
                },
                Err(e) => parse_request_transaction_data(b@) == Err::<
                    (RequestTransactionData, int),
                    CodecError,
                >(e),
            },
    {
        let (tid, p1) = match read_uint(b, 0, 8) {
            Ok(t) => t,
            Err(e) => {
                return Err(e);
            },
        };
        proof {
            lemma_le_val_bound(b@.subrange(0, p1 as int));
            lemma_pow256_values();
        }
        Ok((RequestTransactionData { template_id: tid }, p1))
    }
}

/// Round trip with forward compatibility for [`RequestTransactionData`].
pub proof fn lemma_request_transaction_data_round_trip(m: RequestTransactionData, rest: Seq<u8>)
    ensures
        parse_request_transaction_data(m.encoded() + rest) == Ok::<
            (RequestTransactionData, int),
            CodecError,
        >((m, m.encoded().len() as int)),
{
    lemma_pow256_values();
    lemma_le_enc_len(m.template_id as nat, 8);
    let b = m.encoded() + rest;
    assert(b.subrange(0, 8) =~= le_enc(m.template_id as nat, 8));
    lemma_parse_uint_at(b, 0, 8, m.template_id as nat);
}

/// Truncation safety for [`RequestTransactionData`].
pub proof fn lemma_request_transaction_data_truncated(m: RequestTransactionData, c: int)
    requires
        0 <= c < m.encoded().len(),
    ensures
        parse_request_transaction_data(m.encoded().take(c)) == Err::<
            (RequestTransactionData, int),
            CodecError,
        >(CodecError::TruncatedInput),
{
    lemma_pow256_values();
    lemma_le_enc_len(m.template_id as nat, 8);
    lemma_request_transaction_data_round_trip(m, Seq::empty());
    let e = m.encoded();
    assert(e + Seq::<u8>::empty() =~= e);
    lemma_parse_uint_take(e, 0, 8, c);
}

/// Parse of `n` consecutive length-prefixed transaction blobs at `pos`.
pub open spec fn parse_tx_list(b: Seq<u8>, pos: int, n: nat) -> Result<
    (Seq<Seq<u8>>, int),
    CodecError,
>
    decreases n,
{
    if n == 0 {
        Ok((Seq::empty(), pos))
    } else {
        match parse_bytes(b, pos, 3, MAX_016M as int) {
            Err(e) => Err(e),
            Ok((tx, p)) => match parse_tx_list(b, p, (n - 1) as nat) {
                Err(e) => Err(e),
                Ok((txs, p2)) => Ok((seq![tx] + txs, p2)),
            },
        }
    }
}

/// Unfolds the concatenated element encodings one element at a time.
pub proof fn lemma_enc_elems_skip(s: Seq<Seq<u8>>, i: int)
    requires
        0 <= i < s.len(),
    ensures
        enc_elems(s.skip(i)) == crate::codec::enc_bytes(s[i], 3) + enc_elems(s.skip(i + 1)),
{
    assert(s.skip(i)[0] == s[i]);
    assert(s.skip(i).skip(1) =~= s.skip(i + 1));
}

/// A list of within-maximum blobs laid down at `pos` parses back to exactly
/// that list.
pub proof fn lemma_parse_tx_list_at(b: Seq<u8>, pos: int, txs: Seq<Seq<u8>>)
    requires
        0 <= pos,
        forall|k: int| 0 <= k < txs.len() ==> (#[trigger] txs[k]).len() <= MAX_016M,
        pos + enc_elems(txs).len() <= b.len(),
        b.subrange(pos, pos + enc_elems(txs).len()) == enc_elems(txs),
    ensures
        parse_tx_list(b, pos, txs.len() as nat) == Ok::<(Seq<Seq<u8>>, int), CodecError>(
            (txs, pos + enc_elems(txs).len()),
        ),
    decreases txs.len(),
{
    lemma_pow256_values();
    if txs.len() == 0 {
        assert(txs =~= Seq::<Seq<u8>>::empty());
    } else {
        let l0 = txs[0].len();
        lemma_le_enc_len(l0, 3);
        assert(txs.skip(0) =~= txs);
        lemma_enc_elems_skip(txs, 0);
        let tail = enc_elems(txs.skip(1));
        let e0len = 3 + l0 as int;
        let gl = enc_elems(txs).len() as int;
        assert forall|i: int| 0 <= i < gl implies b[pos + i] == enc_elems(txs)[i] by {
            assert(b.subrange(pos, pos + enc_elems(txs).len())[i] == enc_elems(txs)[i]);
            assert(b.subrange(pos, pos + enc_elems(txs).len())[i] == b[pos + i]);
        }
        assert(b.subrange(pos, pos + 3) =~= le_enc(l0, 3));
        assert forall|i: int|
            0 <= i < l0 implies b.subrange(pos + 3, pos + e0len)[i] == txs[0][i] by {
            assert(b[pos + (3 + i)] == enc_elems(txs)[3 + i]);
        }
        assert(b.subrange(pos + 3, pos + e0len) =~= txs[0]);
        lemma_parse_bytes_at(b, pos, 3, MAX_016M as int, txs[0]);
        assert forall|i: int|
            0 <= i < tail.len() implies b.subrange(pos + e0len, pos + e0len + tail.len())[i]
                == tail[i] by {
            assert(b[pos + (e0len + i)] == enc_elems(txs)[e0len + i]);
        }
        assert(b.subrange(pos + e0len, pos + e0len + tail.len()) =~= tail);
        assert forall|k: int| 0 <= k < txs.skip(1).len() implies (#[trigger] txs.skip(
            1,
        )[k]).len() <= MAX_016M by {
            assert(txs.skip(1)[k] == txs[k + 1]);
        }
        lemma_parse_tx_list_at(b, pos + e0len, txs.skip(1));
        assert(seq![txs[0]] + txs.skip(1) =~= txs);
    }
}

/// A parsed transaction list ends at or after where it starts and holds
/// exactly the declared number of elements.
pub proof fn lemma_parse_tx_list_pos(b: Seq<u8>, pos: int, n: nat)
    ensures
        parse_tx_list(b, pos, n) matches Ok(t) ==> t.1 >= pos && t.0.len() == n,
    decreases n,
{
    if n > 0 {
        match parse_bytes(b, pos, 3, MAX_016M as int) {
            Ok(bt) => {
                lemma_parse_tx_list_pos(b, bt.1, (n - 1) as nat);
            },
            Err(_) => {},
        }
    }
}

/// Cutting a buffer short inside a transaction list turns its parse into a
/// truncation failure; cutting at or after its end leaves it intact.
pub proof fn lemma_parse_tx_list_take(b: Seq<u8>, pos: int, n: nat, c: int)
    requires
        0 <= pos,
        pos <= c <= b.len(),
        parse_tx_list(b, pos, n) matches Ok(t),
    ensures
        parse_tx_list(b, pos, n) matches Ok(t) ==> {
            &&& c >= t.1 ==> parse_tx_list(b.take(c), pos, n) == parse_tx_list(b, pos, n)
            &&& c < t.1 ==> parse_tx_list(b.take(c), pos, n) == Err::<
                (Seq<Seq<u8>>, int),
                CodecError,
            >(CodecError::TruncatedInput)
        },
    decreases n,
{
    if n > 0 {
        lemma_parse_bytes_take(b, pos, 3, MAX_016M as int, c);
        match parse_bytes(b, pos, 3, MAX_016M as int) {
            Ok(bt) => {
                lemma_parse_tx_list_pos(b, bt.1, (n - 1) as nat);
                if c >= bt.1 {
                    lemma_parse_tx_list_take(b, bt.1, (n - 1) as nat, c);
                }
            },
            Err(_) => {},
        }
    }
}

/// The template provider's successful answer: the template id, the opaque
/// excess data the pool may need, and the opaque transaction blobs, in
/// caller-defined order. The codec never interprets their contents, and a
/// parser ignores unrecognized trailing bytes so newer senders stay readable.
#[derive(Clone, Debug, PartialEq, Eq)]
pub struct RequestTransactionDataSuccess {
    /// The template id the data corresponds to.
    pub template_id: u64,
    /// Extra data the pool may require to validate the work.
    pub excess_data: B064K,
    /// The transaction data, as a bounded list of opaque blobs.
    pub transaction_list: Seq064K,
}

/// Mathematical model of [`RequestTransactionDataSuccess`].
#[verifier::ext_equal]
pub struct RequestTransactionDataSuccessView {
    pub template_id: u64,
    pub excess_data: Seq<u8>,
    pub transaction_list: Seq<Seq<u8>>,
}

impl View for RequestTransactionDataSuccess {
    type V = RequestTransactionDataSuccessView;

    open spec fn view(&self) -> RequestTransactionDataSuccessView {
        RequestTransactionDataSuccessView {
            template_id: self.template_id,
            excess_data: self.excess_data@,
            transaction_list: self.transaction_list@,
        }
    }
}

impl RequestTransactionDataSuccessView {
    /// Every bounded field is within its maximum.
    pub open spec fn wf(self) -> bool {
        &&& self.excess_data.len() <= MAX_064K
        &&& self.transaction_list.len() <= MAX_064K
        &&& forall|k: int|
            0 <= k < self.transaction_list.len() ==> (#[trigger] self.transaction_list[k]).len()
                <= MAX_016M
    }

    /// Wire form: template id, length-prefixed excess data, element count,
    /// then each transaction blob with a three-byte length prefix.
    pub open spec fn encoded(self) -> Seq<u8> {
        le_enc(self.template_id as nat, 8) + le_enc(self.excess_data.len(), 2) + self.excess_data
            + le_enc(self.transaction_list.len(), 2) + enc_elems(self.transaction_list)
    }
}

/// Parse of a [`RequestTransactionDataSuccess`] wire form; trailing bytes are
/// left unread.
pub open spec fn parse_request_transaction_data_success(b: Seq<u8>) -> Result<
    (RequestTransactionDataSuccessView, int),
    CodecError,
> {
    match parse_uint(b, 0, 8) {
        Err(e) => Err(e),
        Ok((tid, p1)) => match parse_bytes(b, p1, 2, MAX_064K as int) {
            Err(e) => Err(e),
            Ok((ed, p2)) => match parse_uint(b, p2, 2) {
                Err(e) => Err(e),
                Ok((n, p3)) => match parse_tx_list(b, p3, n) {
                    Err(e) => Err(e),
                    Ok((txs, p4)) => Ok(
                        (
                            RequestTransactionDataSuccessView {
                                template_id: tid as u64,
                                excess_data: ed,
                                transaction_list: txs,
                            },
                            p4,
                        ),
                    ),
                },
            },
        },
    }
}

impl RequestTransactionDataSuccess {
    /// Every bounded field is within its maximum.
    pub open spec fn wf(self) -> bool {
        self@.wf()
    }

    /// Exact byte length of the wire form. The bound on the result is a
    /// machine limit: the total must fit the platform's address width.
    pub fn get_size(&self) -> (r: usize)
        requires
            self.wf(),
            self@.encoded().len() <= usize::MAX,
        ensures
            r == self@.encoded().len(),
    {
        proof {
            lemma_request_transaction_data_success_sizes(self@);
        }
        let n = self.transaction_list.elems.len();
        let mut lsum: u64 = 0;
        let mut i: usize = n;
        proof {
            assert(self@.transaction_list.skip(n as int) =~= Seq::<Seq<u8>>::empty());
        }
        while i > 0
            invariant
                i <= n == self.transaction_list.elems@.len(),
                self.wf(),
                lsum == enc_elems(self@.transaction_list.skip(i as int)).len(),
                lsum <= (n - i) * 16777218,
            decreases i,
        {
            i = i - 1;
            proof {
                assert(self@.transaction_list[i as int] == self.transaction_list.elems@[i as int]@);
                lemma_enc_elems_skip(self@.transaction_list, i as int);
                lemma_le_enc_len(self@.transaction_list[i as int].len(), 3);
            }
            let el = self.transaction_list.elems[i].len();
            lsum = lsum + 3 + el as u64;
        }
        proof {
            assert(self@.transaction_list.skip(0) =~= self@.transaction_list);
        }
        let total: u64 = 12 + self.excess_data.len() as u64 + lsum;
        total as usize
    }

    /// Encodes the message: each field in declared order, then each
    /// transaction blob in list order.
    pub fn encode(&self) -> (r: Vec<u8>)
        requires
            self.wf(),
        ensures
            r@ == self@.encoded(),
    {
        proof {
            lemma_pow256_values();
        }
        let mut out: Vec<u8> = Vec::new();
        write_uint(&mut out, self.template_id, 8);
        write_bytes(&mut out, &self.excess_data.data, 2);
        let n = self.transaction_list.elems.len();
        write_uint(&mut out, n as u64, 2);
        proof {
            assert(self@.transaction_list.skip(0) =~= self@.transaction_list);
            assert(out@ + enc_elems(self@.transaction_list.skip(0)) =~= self@.encoded());
        }
        let mut i: usize = 0;
        while i < n
            invariant
                i <= n == self.transaction_list.elems@.len(),
                self.wf(),
                out@ + enc_elems(self@.transaction_list.skip(i as int)) == self@.encoded(),
            decreases n - i,
        {
            proof {
                assert(self@.transaction_list[i as int] == self.transaction_list.elems@[i as int]@);
                lemma_enc_elems_skip(self@.transaction_list, i as int);
                lemma_pow256_values();
            }
            let ghost before = out@;
            write_bytes(&mut out, &self.transaction_list.elems[i].data, 3);
            proof {
                assert(out@ + enc_elems(self@.transaction_list.skip(i + 1)) =~= before + enc_elems(
                    self@.transaction_list.skip(i as int),
                ));
            }
            i = i + 1;
        }
        proof {
            assert(enc_elems(self@.transaction_list.skip(n as int)) =~= Seq::<u8>::empty());
            assert(out@ =~= out@ + enc_elems(self@.transaction_list.skip(n as int)));
        }
        out
    }

    /// Writes the wire form over the start of a caller-preallocated buffer;
    /// fails, writing nothing, when the buffer is smaller than the encoding.
    pub fn encode_into(&self, out: &mut Vec<u8>) -> (r: Result<usize, CodecError>)
        requires
            self.wf(),
        ensures
            match r {
                Ok(n) => {
                    &&& n == self@.encoded().len()
                    &&& final(out)@.len() == old(out)@.len()
                    &&& final(out)@ == self@.encoded() + old(out)@.skip(n as int)
                },
                Err(e) => {
                    &&& e == CodecError::BufferTooSmall
                    &&& final(out)@ == old(out)@
                    &&& old(out)@.len() < self@.encoded().len()
                },
            },
    {
        let tmp = self.encode();
        write_prefix(out, &tmp)
    }

    /// Decodes a message from the start of `b`, exactly as
    /// [`parse_request_transaction_data_success`] describes.
    #[verifier::loop_isolation(false)]
    pub fn decode(b: &Vec<u8>) -> (r: Result<(RequestTransactionDataSuccess, usize), CodecError>)
        ensures
            match r {
                Ok(t) => {
                    &&& parse_request_transaction_data_success(b@) == Ok::<
                        (RequestTransactionDataSuccessView, int),
                        CodecError,
                    >((t.0@, t.1 as int))
                    &&& t.0.wf()
                    &&& t.1 <= b@.len()
                },
                Err(e) => parse_request_transaction_data_success(b@) == Err::<
                    (RequestTransactionDataSuccessView, int),
                    CodecError,
                >(e),
            },
    {
        let (tid, p1) = match read_uint(b, 0, 8) {
            Ok(t) => t,
            Err(e) => {
                return Err(e);
            },
        };
        let (ed, p2) = match read_bytes(b, p1, 2, 65535) {
            Ok(t) => t,
            Err(e) => {
                return Err(e);
            },
        };
        let (nv, p3) = match read_uint(b, p2, 2) {
            Ok(t) => t,
            Err(e) => {
                return Err(e);
            },
        };
        proof {
            lemma_le_val_bound(b@.subrange(0, p1 as int));
            lemma_le_val_bound(b@.subrange(p2 as int, p3 as int));
            lemma_pow256_values();
        }
        let n = nv as usize;
        let ghost n_nat = nv as nat;
        let ghost start = p3 as int;
        let mut acc: Vec<B016M> = Vec::new();
        let mut pos: usize = p3;
        let mut j: usize = 0;
        proof {
            assert(views_of(acc@) =~= Seq::<Seq<u8>>::empty());
            match parse_tx_list(b@, start, n_nat) {
                Ok(t) => {
                    assert(views_of(acc@) + t.0 =~= t.0);
                },
                Err(_) => {},
            }
        }
        while j < n
            invariant
                j <= n,
                n_nat == n,
                pos <= b@.len(),
                acc@.len() == j,
                forall|k: int| 0 <= k < acc@.len() ==> (#[trigger] acc@[k])@.len() <= MAX_016M,
                match parse_tx_list(b@, pos as int, (n - j) as nat) {
                    Ok(t) => parse_tx_list(b@, start, n_nat) == Ok::<
                        (Seq<Seq<u8>>, int),
                        CodecError,
                    >((views_of(acc@) + t.0, t.1)),
                    Err(e) => parse_tx_list(b@, start, n_nat) == Err::<
                        (Seq<Seq<u8>>, int),
                        CodecError,
                    >(e),
                },
            decreases n - j,
        {
            let (tx, p) = match read_bytes(b, pos, 3, 16777215) {
                Ok(t) => t,
                Err(e) => {
                    return Err(e);
                },
            };
            let ghost prev_acc = acc@;
            acc.push(B016M { data: tx });
            proof {
                assert(views_of(acc@) =~= views_of(prev_acc).push(tx@));
                match parse_tx_list(b@, p as int, (n - j - 1) as nat) {
                    Ok(t) => {
                        assert(views_of(prev_acc) + (seq![tx@] + t.0) =~= views_of(acc@) + t.0);
                    },
                    Err(_) => {},
                }
            }
            pos = p;
            j = j + 1;
        }
        proof {
            assert(views_of(acc@) + Seq::<Seq<u8>>::empty() =~= views_of(acc@));
            assert forall|k: int|
                0 <= k < views_of(acc@).len() implies (#[trigger] views_of(acc@)[k]).len()
                <= MAX_016M by {
                assert(views_of(acc@)[k] == acc@[k]@);
            }
        }
        Ok(
            (
                RequestTransactionDataSuccess {
                    template_id: tid,
                    excess_data: B064K { data: ed },
                    transaction_list: Seq064K { elems: acc },
                },
                pos,
            ),
        )
    }
}

/// Field offsets and total length of the [`RequestTransactionDataSuccess`]
/// wire form.
pub proof fn lemma_request_transaction_data_success_sizes(v: RequestTransactionDataSuccessView)
    ensures
        v.encoded().len() == 12 + v.excess_data.len() + enc_elems(v.transaction_list).len(),
{
    lemma_le_enc_len(v.template_id as nat, 8);
    lemma_le_enc_len(v.excess_data.len(), 2);
    lemma_le_enc_len(v.transaction_list.len(), 2);
}

/// Round trip with forward compatibility for
/// [`RequestTransactionDataSuccess`]: in particular, unrecognized trailing
/// bytes after the defined fields leave the decoded fields untouched.
#[verifier::rlimit(30)]
pub proof fn lemma_request_transaction_data_success_round_trip(
    v: RequestTransactionDataSuccessView,
    rest: Seq<u8>,
)
    requires
        v.wf(),
    ensures
        parse_request_transaction_data_success(v.encoded() + rest) == Ok::<
            (RequestTransactionDataSuccessView, int),
            CodecError,
        >((v, v.encoded().len() as int)),
{
    lemma_pow256_values();
    lemma_request_transaction_data_success_sizes(v);
    lemma_le_enc_len(v.template_id as nat, 8);
    lemma_le_enc_len(v.excess_data.len(), 2);
    lemma_le_enc_len(v.transaction_list.len(), 2);
    let b = v.encoded() + rest;
    let ed = v.excess_data.len() as int;
    let ll = enc_elems(v.transaction_list).len() as int;
    assert(b.subrange(0, 8) =~= le_enc(v.template_id as nat, 8));
    lemma_parse_uint_at(b, 0, 8, v.template_id as nat);
    assert(b.subrange(8, 10) =~= le_enc(v.excess_data.len(), 2));
    assert(b.subrange(10, 10 + ed) =~= v.excess_data);
    lemma_parse_bytes_at(b, 8, 2, MAX_064K as int, v.excess_data);
    assert(b.subrange(10 + ed, 12 + ed) =~= le_enc(v.transaction_list.len(), 2));
    lemma_parse_uint_at(b, 10 + ed, 2, v.transaction_list.len());
    assert(b.subrange(12 + ed, 12 + ed + ll) =~= enc_elems(v.transaction_list));
    lemma_parse_tx_list_at(b, 12 + ed, v.transaction_list);
    assert(parse_request_transaction_data_success(b)->Ok_0.0 =~= v);
}

/// Truncation safety for [`RequestTransactionDataSuccess`].
#[verifier::rlimit(80)]
pub proof fn lemma_request_transaction_data_success_truncated(
    v: RequestTransactionDataSuccessView,
    c: int,
)
    requires
        v.wf(),
        0 <= c < v.encoded().len(),
    ensures
        parse_request_transaction_data_success(v.encoded().take(c)) == Err::<
            (RequestTransactionDataSuccessView, int),
            CodecError,
        >(CodecError::TruncatedInput),
{
    lemma_pow256_values();
    lemma_request_transaction_data_success_sizes(v);
    lemma_le_enc_len(v.template_id as nat, 8);
    lemma_le_enc_len(v.excess_data.len(), 2);
    lemma_le_enc_len(v.transaction_list.len(), 2);
    lemma_request_transaction_data_success_round_trip(v, Seq::empty());
    let e = v.encoded();
    assert(e + Seq::<u8>::empty() =~= e);
    let ed = v.excess_data.len() as int;
    let ll = enc_elems(v.transaction_list).len() as int;
    assert(e.subrange(0, 8) =~= le_enc(v.template_id as nat, 8));
    lemma_parse_uint_at(e, 0, 8, v.template_id as nat);
    assert(e.subrange(8, 10) =~= le_enc(v.excess_data.len(), 2));
    assert(e.subrange(10, 10 + ed) =~= v.excess_data);
    lemma_parse_bytes_at(e, 8, 2, MAX_064K as int, v.excess_data);
    assert(e.subrange(10 + ed, 12 + ed) =~= le_enc(v.transaction_list.len(), 2));
    lemma_parse_uint_at(e, 10 + ed, 2, v.transaction_list.len());
    assert(e.subrange(12 + ed, 12 + ed + ll) =~= enc_elems(v.transaction_list));
    lemma_parse_tx_list_at(e, 12 + ed, v.transaction_list);
    lemma_parse_uint_take(e, 0, 8, c);
    if c >= 8 {
        lemma_parse_bytes_take(e, 8, 2, MAX_064K as int, c);
    }
    if c >= 10 + ed {
        lemma_parse_uint_take(e, 10 + ed, 2, c);
    }
    if c >= 12 + ed {
        lemma_parse_tx_list_take(e, 12 + ed, v.transaction_list.len() as nat, c);
    }
}

/// The template provider's failure answer to a transaction-data request.
#[derive(Clone, Debug, PartialEq, Eq)]
pub struct RequestTransactionDataError {
    /// Identifier of the template the request named.
    pub template_id: u64,
    /// Reason why no transaction data has been provided:
    /// template-id-not-found.
    pub error_code: Str0255,
}

/// Mathematical model of [`RequestTransactionDataError`].
#[verifier::ext_equal]
pub struct RequestTransactionDataErrorView {
    pub template_id: u64,
    pub error_code: Seq<u8>,
}

impl View for RequestTransactionDataError {
    type V = RequestTransactionDataErrorView;

    open spec fn view(&self) -> RequestTransactionDataErrorView {
        RequestTransactionDataErrorView {
            template_id: self.template_id,
            error_code: self.error_code@,
        }
    }
}

impl RequestTransactionDataErrorView {
    /// The bounded field is within its maximum.
    pub open spec fn wf(self) -> bool {
        self.error_code.len() <= MAX_0255
    }

    /// Wire form: template id, then the length-prefixed error code.
    pub open spec fn encoded(self) -> Seq<u8> {
        le_enc(self.template_id as nat, 8) + le_enc(self.error_code.len(), 1) + self.error_code
    }
}

/// Parse of a [`RequestTransactionDataError`] wire form; trailing bytes are
/// left unread.
pub open spec fn parse_request_transaction_data_error(b: Seq<u8>) -> Result<
    (RequestTransactionDataErrorView, int),
    CodecError,
> {
    match parse_uint(b, 0, 8) {
        Err(e) => Err(e),
        Ok((tid, p1)) => match parse_bytes(b, p1, 1, MAX_0255 as int) {
            Err(e) => Err(e),
            Ok((ec, p2)) => Ok(
                (RequestTransactionDataErrorView { template_id: tid as u64, error_code: ec }, p2),
            ),
        },
    }
}

impl RequestTransactionDataError {
    /// The bounded field is within its maximum.
    pub open spec fn wf(self) -> bool {
        self@.wf()
    }

    /// Exact byte length of the wire form.
    pub fn get_size(&self) -> (r: usize)
        requires
            self.wf(),
        ensures
            r == self@.encoded().len(),
    {
        proof {
            lemma_le_enc_len(self.template_id as nat, 8);
            lemma_le_enc_len(self.error_code@.len(), 1);
        }
        9 + self.error_code.len()
    }

    /// Encodes the message: each field in declared order.
    pub fn encode(&self) -> (r: Vec<u8>)
        requires
            self.wf(),
        ensures
            r@ == self@.encoded(),
    {
        proof {
            lemma_pow256_values();
        }
        let mut out: Vec<u8> = Vec::new();
        write_uint(&mut out, self.template_id, 8);
        write_bytes(&mut out, &self.error_code.data, 1);
        proof {
            assert(out@ =~= self@.encoded());
        }
        out
    }

    /// Writes the wire form over the start of a caller-preallocated buffer;
    /// fails, writing nothing, when the buffer is smaller than the encoding.
    pub fn encode_into(&self, out: &mut Vec<u8>) -> (r: Result<usize, CodecError>)
        requires
            self.wf(),
        ensures
            match r {
                Ok(n) => {
                    &&& n == self@.encoded().len()
                    &&& final(out)@.len() == old(out)@.len()
                    &&& final(out)@ == self@.encoded() + old(out)@.skip(n as int)
                },
                Err(e) => {
                    &&& e == CodecError::BufferTooSmall
                    &&& final(out)@ == old(out)@
                    &&& old(out)@.len() < self@.encoded().len()
                },
            },
    {
        let tmp = self.encode();
        write_prefix(out, &tmp)
    }

    /// Decodes a message from the start of `b`, exactly as
    /// [`parse_request_transaction_data_error`] describes.
    pub fn decode(b: &Vec<u8>) -> (r: Result<(RequestTransactionDataError, usize), CodecError>)
        ensures
            match r {
                Ok(t) => {
                    &&& parse_request_transaction_data_error(b@) == Ok::<
                        (RequestTransactionDataErrorView, int),
                        CodecError,
                    >((t.0@, t.1 as int))
                    &&& t.0.wf()
                    &&& t.1 <= b@.len()
                },
                Err(e) => parse_request_transaction_data_error(b@) == Err::<
                    (RequestTransactionDataErrorView, int),
                    CodecError,
                >(e),
            },
    {
        let (tid, p1) = match read_uint(b, 0, 8) {
            Ok(t) => t,
            Err(e) => {
                return Err(e);
            },
        };
        let (ec, p2) = match read_bytes(b, p1, 1, 255) {
            Ok(t) => t,
            Err(e) => {
                return Err(e);
            },
        };
        proof {
            lemma_le_val_bound(b@.subrange(0, p1 as int));
            lemma_pow256_values();
        }
        Ok((RequestTransactionDataError { template_id: tid, error_code: Str0255 { data: ec } }, p2))
    }
}

/// Round trip with forward compatibility for
/// [`RequestTransactionDataError`].
pub proof fn lemma_request_transaction_data_error_round_trip(
    v: RequestTransactionDataErrorView,
    rest: Seq<u8>,
)
    requires
        v.wf(),
    ensures
        parse_request_transaction_data_error(v.encoded() + rest) == Ok::<
            (RequestTransactionDataErrorView, int),
            CodecError,
        >((v, v.encoded().len() as int)),
{
    lemma_pow256_values();
    lemma_le_enc_len(v.template_id as nat, 8);
    lemma_le_enc_len(v.error_code.len(), 1);
    let b = v.encoded() + rest;
    let ec = v.error_code.len() as int;
    assert(b.subrange(0, 8) =~= le_enc(v.template_id as nat, 8));
    lemma_parse_uint_at(b, 0, 8, v.template_id as nat);
    assert(b.subrange(8, 9) =~= le_enc(v.error_code.len(), 1));
    assert(b.subrange(9, 9 + ec) =~= v.error_code);
    lemma_parse_bytes_at(b, 8, 1, MAX_0255 as int, v.error_code);
    assert(parse_request_transaction_data_error(b)->Ok_0.0 =~= v);
}

/// Truncation safety for [`RequestTransactionDataError`].
pub proof fn lemma_request_transaction_data_error_truncated(
    v: RequestTransactionDataErrorView,
    c: int,
)
    requires
        v.wf(),
        0 <= c < v.encoded().len(),
    ensures
        parse_request_transaction_data_error(v.encoded().take(c)) == Err::<
            (RequestTransactionDataErrorView, int),
            CodecError,
        >(CodecError::TruncatedInput),
{
    lemma_pow256_values();
    lemma_le_enc_len(v.template_id as nat, 8);
    lemma_le_enc_len(v.error_code.len(), 1);
    lemma_request_transaction_data_error_round_trip(v, Seq::empty());
    let e = v.encoded();
    assert(e + Seq::<u8>::empty() =~= e);
    lemma_parse_uint_take(e, 0, 8, c);
    if c >= 8 {
        lemma_parse_bytes_take(e, 8, 1, MAX_0255 as int, c);
    }
}

/// The byte sequences a list of owned blocks holds, in order.
pub open spec fn block_views(l: Seq<Vec<u8>>) -> Seq<Seq<u8>> {
    l.map(|i: int, v: Vec<u8>| v@)
}

/// Owning mirror of [`RequestTransactionDataSuccess`] for callers across an
/// ABI boundary: the excess data and each transaction blob are independently
/// owned byte blocks.
#[derive(Clone, Debug)]
pub struct CRequestTransactionDataSuccess {
    /// The template id the data corresponds to.
    pub template_id: u64,
    /// Extra data the pool may require to validate the work.
    pub excess_data: Vec<u8>,
    /// The transaction data, one owned block per transaction.
    pub transaction_list: Vec<Vec<u8>>,
}

/// Mathematical model of [`CRequestTransactionDataSuccess`].
#[verifier::ext_equal]
pub struct CRequestTransactionDataSuccessView {
    pub template_id: u64,
    pub excess_data: Seq<u8>,
    pub transaction_list: Seq<Seq<u8>>,
}

impl View for CRequestTransactionDataSuccess {
    type V = CRequestTransactionDataSuccessView;

    open spec fn view(&self) -> CRequestTransactionDataSuccessView {
        CRequestTransactionDataSuccessView {
            template_id: self.template_id,
            excess_data: self.excess_data@,
            transaction_list: block_views(self.transaction_list@),
        }
    }
}

impl CRequestTransactionDataSuccessView {
    /// The mirror a message converts into carries the same data.
    pub open spec fn spec_from_rust(m: RequestTransactionDataSuccessView) -> Self {
        CRequestTransactionDataSuccessView {
            template_id: m.template_id,
            excess_data: m.excess_data,
            transaction_list: m.transaction_list,
        }
    }

    /// The message a mirror converts back into: succeeds exactly when every
    /// owned block is within its bounded maximum.
    pub open spec fn spec_to_rust(self) -> Result<RequestTransactionDataSuccessView, CodecError> {
        if self.excess_data.len() <= MAX_064K && self.transaction_list.len() <= MAX_064K && (forall|
            k: int,
        |
            0 <= k < self.transaction_list.len() ==> (#[trigger] self.transaction_list[k]).len()
                <= MAX_016M) {
            Ok(
                RequestTransactionDataSuccessView {
                    template_id: self.template_id,
                    excess_data: self.excess_data,
                    transaction_list: self.transaction_list,
                },
            )
        } else {
            Err(CodecError::LengthViolation)
        }
    }
}

impl CRequestTransactionDataSuccess {
    /// Convert the library representation into the owning mirror, moving each
    /// blob into an owned block.
    pub fn from_rust_rep(m: RequestTransactionDataSuccess) -> (r: CRequestTransactionDataSuccess)
        ensures
            r@ == CRequestTransactionDataSuccessView::spec_from_rust(m@),
    {
        let ghost orig = m.transaction_list.elems@;
        let mut elems = m.transaction_list.elems;
        let mut list: Vec<Vec<u8>> = Vec::new();
        proof {
            assert(block_views(list@) + views_of(elems@) =~= views_of(orig));
        }
        while elems.len() > 0
            invariant
                block_views(list@) + views_of(elems@) == views_of(orig),
            decreases elems@.len(),
        {
            let ghost prev_list = list@;
            let ghost prev_elems = elems@;
            let e = elems.remove(0);
            list.push(e.data);
            proof {
                assert(block_views(list@) =~= block_views(prev_list).push(e@));
                assert(views_of(prev_elems) =~= seq![e@] + views_of(elems@));
                assert(block_views(list@) + views_of(elems@) =~= block_views(prev_list)
                    + views_of(prev_elems));
            }
        }
        proof {
            assert(views_of(elems@) =~= Seq::<Seq<u8>>::empty());
            assert(block_views(list@) =~= block_views(list@) + views_of(elems@));
        }
        CRequestTransactionDataSuccess {
            template_id: m.template_id,
            excess_data: m.excess_data.data,
            transaction_list: list,
        }
    }

    /// Convert the mirror into the library representation, checking every
    /// owned block against its bounded maximum; the result owns copies of the
    /// blocks, so the mirror stays valid until its own release.
    #[verifier::loop_isolation(false)]
    pub fn to_rust_rep_mut(&self) -> (r: Result<RequestTransactionDataSuccess, CodecError>)
        ensures
            match r {
                Ok(m) => {
                    &&& self@.spec_to_rust() == Ok::<RequestTransactionDataSuccessView, CodecError>(
                        m@,
                    )
                    &&& m.wf()
                },
                Err(e) => self@.spec_to_rust() == Err::<
                    RequestTransactionDataSuccessView,
                    CodecError,
                >(e),
            },
    {
        if self.excess_data.len() > 65535 || self.transaction_list.len() > 65535 {
            return Err(CodecError::LengthViolation);
        }
        let n = self.transaction_list.len();
        let mut elems: Vec<B016M> = Vec::new();
        let mut i: usize = 0;
        while i < n
            invariant
                i <= n,
                elems@.len() == i,
                forall|k: int| 0 <= k < i ==> (#[trigger] elems@[k])@ == self.transaction_list@[k]@,
                forall|k: int| 0 <= k < i ==> (#[trigger] elems@[k])@.len() <= MAX_016M,
            decreases n - i,
        {
            let block = &self.transaction_list[i];
            if block.len() > 16777215 {
                proof {
                    assert(block_views(self.transaction_list@)[i as int] == self.transaction_list@[
                        i as int
                    ]@);
                }
                return Err(CodecError::LengthViolation);
            }
            elems.push(B016M { data: copy_bytes(block) });
            i = i + 1;
        }
        proof {
            assert(views_of(elems@) =~= block_views(self.transaction_list@));
            assert forall|k: int|
                0 <= k < block_views(self.transaction_list@).len() implies (#[trigger] block_views(
                self.transaction_list@,
            )[k]).len() <= MAX_016M by {
                assert(block_views(self.transaction_list@)[k] == self.transaction_list@[k]@);
                assert(views_of(elems@)[k] == elems@[k]@);
            }
            assert(self@.spec_to_rust()->Ok_0 =~= (RequestTransactionDataSuccessView {
                template_id: self.template_id,
                excess_data: self.excess_data@,
                transaction_list: views_of(elems@),
            }));
        }
        Ok(
            RequestTransactionDataSuccess {
                template_id: self.template_id,
                excess_data: B064K { data: copy_bytes(&self.excess_data) },
                transaction_list: Seq064K { elems },
            },
        )
    }

    /// Frees every owned block, leaving empty blocks behind. Safe on a
    /// partially populated mirror, and releasing twice leaves the same empty
    /// state.
    pub fn release(&mut self)
        ensures
            final(self).template_id == old(self).template_id,
            final(self).excess_data@.len() == 0,
            final(self).transaction_list@.len() == 0,
    {
        self.excess_data = Vec::new();
        self.transaction_list = Vec::new();
    }
}

/// Releases a [`CRequestTransactionDataSuccess`]: frees every owned block and
/// consumes the mirror.
pub fn free_request_tx_data_success(s: CRequestTransactionDataSuccess) {
    let mut s = s;
    s.release();
}

/// Foreign-representation safety: converting a well-formed message to its
/// owning mirror and back reproduces the original data.
pub proof fn lemma_request_transaction_data_success_foreign_round_trip(
    v: RequestTransactionDataSuccessView,
)
    requires
        v.wf(),
    ensures
        CRequestTransactionDataSuccessView::spec_from_rust(v).spec_to_rust() == Ok::<
            RequestTransactionDataSuccessView,
            CodecError,
        >(v),
{
    assert(CRequestTransactionDataSuccessView::spec_from_rust(v).spec_to_rust()->Ok_0 =~= v);
}

/// Owning mirror of [`RequestTransactionDataError`] for callers across an
/// ABI boundary.
#[derive(Clone, Debug)]
pub struct CRequestTransactionDataError {
    /// Identifier of the template the request named.
    pub template_id: u64,
    /// Reason why no transaction data has been provided.
    pub error_code: Vec<u8>,
}

impl CRequestTransactionDataError {
    /// The mirror a message converts into.
    pub open spec fn spec_from_rust(m: RequestTransactionDataError) -> CRequestTransactionDataError {
        CRequestTransactionDataError { template_id: m.template_id, error_code: m.error_code.data }
    }

    /// The message a mirror converts back into: succeeds exactly when the
    /// owned block is within its bounded maximum.
    pub open spec fn spec_to_rust(self) -> Result<RequestTransactionDataError, CodecError> {
        if self.error_code@.len() <= MAX_0255 {
            Ok(
                RequestTransactionDataError {
                    template_id: self.template_id,
                    error_code: Str0255 { data: self.error_code },
                },
            )
        } else {
            Err(CodecError::LengthViolation)
        }
    }

    /// Convert the mirror into the library representation, checking the
    /// owned block against its bounded maximum.
    pub fn to_rust_rep_mut(self) -> (r: Result<RequestTransactionDataError, CodecError>)
        ensures
            r == self.spec_to_rust(),
    {
        if self.error_code.len() > 255 {
            return Err(CodecError::LengthViolation);
        }
        Ok(
            RequestTransactionDataError {
                template_id: self.template_id,
                error_code: Str0255 { data: self.error_code },
            },
        )
    }

    /// Frees the owned block, leaving an empty block behind. Safe on a
    /// partially populated mirror, and releasing twice leaves the same empty
    /// state.
    pub fn release(&mut self)
        ensures
            final(self).template_id == old(self).template_id,
            final(self).error_code@.len() == 0,
    {
        self.error_code = Vec::new();
    }
}

impl From<RequestTransactionDataError> for CRequestTransactionDataError {
    /// Convert the library representation into the owning mirror.
    fn from(v: RequestTransactionDataError) -> Self {
        CRequestTransactionDataError { template_id: v.template_id, error_code: v.error_code.data }
    }
}

impl vstd::std_specs::convert::FromSpecImpl<RequestTransactionDataError> for CRequestTransactionDataError {
    open spec fn obeys_from_spec() -> bool {
        true
    }

    open spec fn from_spec(v: RequestTransactionDataError) -> CRequestTransactionDataError {
        CRequestTransactionDataError::spec_from_rust(v)
    }
}

/// Releases a [`CRequestTransactionDataError`]: frees the owned block and
/// consumes the mirror.
pub fn free_request_tx_data_error(s: CRequestTransactionDataError) {
    let mut s = s;
    s.release();
}

/// Foreign-representation safety: converting a well-formed message to its
/// owning mirror and back reproduces the original message.
pub proof fn lemma_request_transaction_data_error_foreign_round_trip(m: RequestTransactionDataError)
    requires
        m.wf(),
    ensures
        CRequestTransactionDataError::spec_from_rust(m).spec_to_rust() == Ok::<
            RequestTransactionDataError,
            CodecError,
        >(m),
{
}

} // verus!
