//! The transaction journal: a log of local activity for display. No rule of
//! the protocol consults it.

use vstd::prelude::*;
use crate::decimal::{decimal_digits, parse_u128, parsed_u128};
use crate::hexfmt::hex_chars;
use crate::state::TransactionRecord;

verus! {

/// The text of an optional string.
pub open spec fn text_of(s: Option<&str>) -> Option<Seq<char>> {
    match s {
        Some(t) => Some(t@),
        None => None,
    }
}

/// The text of an optional owned string.
pub open spec fn owned_text(s: Option<String>) -> Option<Seq<char>> {
    match s {
        Some(t) => Some(t@),
        None => None,
    }
}

/// The JSON object that `serde_json` writes for a list of members, each a
/// name with a text or with nothing: a member without a text is null, and of
/// two members with one name the later stays.
pub uninterp spec fn json_object(members: Seq<(Seq<char>, Option<Seq<char>>)>) -> Seq<u8>;

/// The names and texts of a list of members.
pub open spec fn member_texts(members: Seq<(String, Option<String>)>) -> Seq<
    (Seq<char>, Option<Seq<char>>),
> {
    members.map_values(|m: (String, Option<String>)| (m.0@, owned_text(m.1)))
}

/// The members of the data of a journal entry: `amount`, the amount in
/// decimal; `tx_hash`, the hash of the transaction on chain in hex, if there
/// is one; `recipient`, the counterparty, if there is one.
pub open spec fn journal_members(
    amount: u128,
    tx_hash: Option<Seq<u8>>,
    recipient: Option<Seq<char>>,
) -> Seq<(Seq<char>, Option<Seq<char>>)> {
    seq![
        ("amount"@, Some(decimal_digits(amount as nat))),
        (
            "tx_hash"@,
            match tx_hash {
                Some(h) => Some(hex_chars(h)),
                None => None,
            },
        ),
        ("recipient"@, recipient),
    ]
}

/// The string that `serde_json` reads under a key of a JSON object, if the
/// bytes are such an object and the member is a string.
pub uninterp spec fn json_text_member(data: Seq<u8>, key: Seq<char>) -> Option<Seq<char>>;

/// `serde_json::to_vec` on an object with the given members: the bytes of
/// its JSON text.
#[verifier::external_body]
pub(crate) fn write_json_object(members: &Vec<(String, Option<String>)>) -> (data: Vec<u8>)
    ensures
        data@ == json_object(member_texts(members@)),
{
    let mut object = serde_json::Map::new();
    for (name, text) in members {
        object.insert(name.clone(), serde_json::Value::from(text.clone()));
    }
    serde_json::to_vec(&serde_json::Value::Object(object)).unwrap_or_default()
}

/// `serde_json::from_slice`, `Value::get` and `Value::as_str`: the string
/// member of a JSON object under a key.
#[verifier::external_body]
fn read_json_text(data: &[u8], key: &str) -> (r: Option<String>)
    ensures
        owned_text(r) == json_text_member(data@, key@),
{
    let value = serde_json::from_slice::<serde_json::Value>(data).ok()?;
    value.get(key)?.as_str().map(|s| s.to_string())
}

impl TransactionRecord {
    /// The amount of the entry: the `amount` member of its data, read as a
    /// decimal number.
    pub fn amount(&self) -> (r: Option<u128>)
        ensures
            r == (match json_text_member(self.data@, "amount"@) {
                Some(text) => parsed_u128(text),
                None => None,
            }),
    {
        match read_json_text(self.data.as_slice(), "amount") {
            Some(text) => parse_u128(text.as_str()),
            None => None,
        }
    }

    /// The transaction hash of the entry: the `tx_hash` member of its data.
    pub fn tx_hash(&self) -> (r: Option<String>)
        ensures
            owned_text(r) == json_text_member(self.data@, "tx_hash"@),
    {
        read_json_text(self.data.as_slice(), "tx_hash")
    }

    /// The counterparty of the entry: the `recipient` member of its data.
    pub fn recipient(&self) -> (r: Option<String>)
        ensures
            owned_text(r) == json_text_member(self.data@, "recipient"@),
    {
        read_json_text(self.data.as_slice(), "recipient")
    }

    /// A copy of the entry.
    pub fn duplicate(&self) -> (r: Self)
        ensures
            r.id == self.id,
            r.tx_type@ == self.tx_type@,
            r.data@ == self.data@,
            r.status@ == self.status@,
            r.created_at == self.created_at,
    {
        let mut data: Vec<u8> = Vec::new();
        let mut i: usize = 0;
        while i < self.data.len()
            invariant
                i <= self.data@.len(),
                data@ == self.data@.take(i as int),
            decreases self.data@.len() - i,
        {
            data.push(self.data[i]);
            proof {
                assert(data@ =~= self.data@.take(i + 1));
            }
            i += 1;
        }
        proof {
            assert(self.data@.take(i as int) =~= self.data@);
        }
        TransactionRecord {
            id: self.id,
            tx_type: self.tx_type.clone(),
            data,
            status: self.status.clone(),
            created_at: self.created_at,
        }
    }
}

/// Whether an entry is what recording a transaction writes.
pub open spec fn records(
    entry: TransactionRecord,
    id: nat,
    tx_type: Seq<char>,
    amount: u128,
    tx_hash: Option<Seq<u8>>,
    recipient: Option<Seq<char>>,
    status: Seq<char>,
    now: u64,
) -> bool {
    &&& entry.id == id
    &&& entry.tx_type@ == tx_type
    &&& entry.status@ == status
    &&& entry.created_at == now
    &&& entry.data@ == json_object(journal_members(amount, tx_hash, recipient))
}

/// The bytes of an optional byte string.
pub open spec fn bytes_of(s: Option<&[u8]>) -> Option<Seq<u8>> {
    match s {
        Some(t) => Some(t@),
        None => None,
    }
}

/// How many entries have the given status.
pub open spec fn count_status(journal: Seq<TransactionRecord>, status: Seq<char>) -> nat
    decreases journal.len(),
{
    if journal.len() == 0 {
        0
    } else {
        count_status(journal.drop_last(), status) + if journal.last().status@ == status {
            1nat
        } else {
            0nat
        }
    }
}

/// Whether two entries say the same.
pub open spec fn same_entry(a: TransactionRecord, b: TransactionRecord) -> bool {
    &&& a.id == b.id
    &&& a.tx_type@ == b.tx_type@
    &&& a.data@ == b.data@
    &&& a.status@ == b.status@
    &&& a.created_at == b.created_at
}

/// A list of entries with one more, placed behind every entry of a later
/// time and before every other.
pub open spec fn shelved(s: Seq<TransactionRecord>, e: TransactionRecord) -> Seq<
    TransactionRecord,
>
    decreases s.len(),
{
    if s.len() == 0 {
        seq![e]
    } else if s[0].created_at <= e.created_at {
        seq![e] + s
    } else {
        seq![s[0]] + shelved(s.skip(1), e)
    }
}

/// The entries of a journal in the order of their times, the latest first;
/// of entries of one time, the one recorded later comes first.
pub open spec fn newest_first(journal: Seq<TransactionRecord>) -> Seq<TransactionRecord>
    decreases journal.len(),
{
    if journal.len() == 0 {
        Seq::<TransactionRecord>::empty()
    } else {
        shelved(newest_first(journal.drop_last()), journal.last())
    }
}

/// Whether no entry stands before one of a later time.
pub open spec fn times_descend(s: Seq<TransactionRecord>) -> bool {
    forall|i: int, j: int|
        0 <= i < j < s.len() ==> (#[trigger] s[i]).created_at >= (#[trigger] s[j]).created_at
}

/// The entries that a list of places picks from a journal.
pub open spec fn picked(journal: Seq<TransactionRecord>, order: Seq<usize>) -> Seq<
    TransactionRecord,
> {
    Seq::new(order.len(), |k: int| journal[order[k] as int])
}

/// Where an entry is shelved: at the first place that holds no entry of a
/// later time.
pub proof fn lemma_shelved_at(s: Seq<TransactionRecord>, e: TransactionRecord, p: int)
    requires
        0 <= p <= s.len(),
        forall|k: int| 0 <= k < p ==> (#[trigger] s[k]).created_at > e.created_at,
        p < s.len() ==> s[p].created_at <= e.created_at,
    ensures
        shelved(s, e) == s.take(p).push(e) + s.skip(p),
    decreases p,
{
    if p == 0 {
        if s.len() == 0 {
            assert(shelved(s, e) =~= s.take(p).push(e) + s.skip(p));
        } else {
            assert(seq![e] + s =~= s.take(p).push(e) + s.skip(p));
        }
    } else {
        let rest = s.skip(1);
        assert(s[0].created_at > e.created_at);
        assert forall|k: int| 0 <= k < p - 1 implies (#[trigger] rest[k]).created_at
            > e.created_at by {
            assert(s[k + 1].created_at > e.created_at);
        }
        lemma_shelved_at(rest, e, p - 1);
        assert(seq![s[0]] + (rest.take(p - 1).push(e) + rest.skip(p - 1)) =~= s.take(p).push(e)
            + s.skip(p));
    }
}

/// Shelving keeps the times in order and adds that entry only.
pub proof fn lemma_shelved(s: Seq<TransactionRecord>, e: TransactionRecord)
    requires
        times_descend(s),
    ensures
        times_descend(shelved(s, e)),
        shelved(s, e).len() == s.len() + 1,
        shelved(s, e).to_multiset() == s.to_multiset().insert(e),
    decreases s.len(),
{
    broadcast use vstd::seq_lib::group_to_multiset_ensures;

    if s.len() == 0 {
        assert(s =~= Seq::<TransactionRecord>::empty());
        assert(seq![e] =~= Seq::<TransactionRecord>::empty().push(e));
    } else if s[0].created_at <= e.created_at {
        let t = seq![e] + s;
        assert forall|i: int, j: int| 0 <= i < j < t.len() implies (#[trigger] t[i]).created_at >= (
        #[trigger] t[j]).created_at by {
            if i == 0 {
                if j > 1 {
                    assert(s[0].created_at >= s[j - 1].created_at);
                }
            } else {
                assert(s[i - 1].created_at >= s[j - 1].created_at);
            }
        }
        assert(t =~= s.insert(0, e));
        vstd::seq_lib::to_multiset_insert(s, 0, e);
    } else {
        let rest = s.skip(1);
        assert forall|i: int, j: int| 0 <= i < j < rest.len() implies (#[trigger] rest[i]).created_at
            >= (#[trigger] rest[j]).created_at by {
            assert(s[i + 1].created_at >= s[j + 1].created_at);
        }
        lemma_shelved(rest, e);
        let q = shelved(rest, e);
        let t = seq![s[0]] + q;
        assert forall|k: int| 0 <= k < q.len() implies s[0].created_at >= (#[trigger] q[k]).created_at by {
            assert(q.to_multiset().count(q[k]) > 0);
            if q[k] != e {
                assert(rest.to_multiset().count(q[k]) > 0);
                let w = choose|w: int| 0 <= w < rest.len() && rest[w] == q[k];
                assert(s[0].created_at >= s[w + 1].created_at);
            }
        }
        assert forall|i: int, j: int| 0 <= i < j < t.len() implies (#[trigger] t[i]).created_at >= (
        #[trigger] t[j]).created_at by {
            if i == 0 {
                assert(t[j] == q[j - 1]);
            } else {
                assert(q[i - 1].created_at >= q[j - 1].created_at);
            }
        }
        assert(t =~= q.insert(0, s[0]));
        vstd::seq_lib::to_multiset_insert(q, 0, s[0]);
        assert(s =~= rest.insert(0, s[0]));
        vstd::seq_lib::to_multiset_insert(rest, 0, s[0]);
        assert(t.to_multiset() =~= s.to_multiset().insert(e));
    }
}

/// The order by time holds the entries of the journal, each as often as the
/// journal does, with their times descending.
pub proof fn lemma_newest_first(journal: Seq<TransactionRecord>)
    ensures
        times_descend(newest_first(journal)),
        newest_first(journal).len() == journal.len(),
        newest_first(journal).to_multiset() == journal.to_multiset(),
    decreases journal.len(),
{
    broadcast use vstd::seq_lib::group_to_multiset_ensures;

    if journal.len() > 0 {
        lemma_newest_first(journal.drop_last());
        lemma_shelved(newest_first(journal.drop_last()), journal.last());
        assert(journal =~= journal.drop_last().push(journal.last()));
    } else {
        assert(journal =~= Seq::<TransactionRecord>::empty());
    }
}

} // verus!
