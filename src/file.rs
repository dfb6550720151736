//! The append-only binary log: each record is a little-endian `u32` length
//! covering tag and payload, one tag byte, then the UTF-8 payload.
use vstd::prelude::*;

use vstd::bytes::{
    lemma_auto_spec_u32_to_from_le_bytes, spec_u32_from_le_bytes, spec_u32_to_le_bytes,
    u32_from_le_bytes, u32_to_le_bytes,
};
use vstd::slice::slice_subrange;
use vstd::utf8::{decode_utf8, encode_utf8, encode_utf8_decode_utf8, encode_utf8_valid_utf8, valid_utf8};

verus! {

/// Name of the log file inside a project directory.
pub const FILE_NAME: &'static str = "doc.data";

/// The kind of a log record.
#[derive(Clone, Copy, Debug, PartialEq, Eq, Structural)]
pub enum ItemType {
    Header,
    Api,
}

impl ItemType {
    pub open spec fn spec_tag(self) -> u8 {
        match self {
            ItemType::Header => 0,
            ItemType::Api => 1,
        }
    }

    /// The tag byte that marks a record of this kind.
    pub fn tag(self) -> (r: u8)
        ensures
            r == self.spec_tag(),
    {
        match self {
            ItemType::Header => 0,
            ItemType::Api => 1,
        }
    }
}

/// One record read back from a log.
#[derive(Clone, Debug)]
pub struct Item {
    pub item_type: u32,
    pub content: String,
}

/// Mathematical value of an `Item`.
pub struct ItemModel {
    pub item_type: u32,
    pub content: Seq<char>,
}

impl View for Item {
    type V = ItemModel;

    open spec fn view(&self) -> ItemModel {
        ItemModel { item_type: self.item_type, content: self.content@ }
    }
}

/// Why a log could not be read.
#[derive(Clone, Copy, Debug, PartialEq, Eq, Structural)]
pub enum LogError {
    /// A complete record whose length leaves no room for its tag byte.
    MissingTag,
    /// A record whose payload is not valid UTF-8.
    InvalidText,
}

/// The bytes of one record of tag `tag` holding `text`.
pub open spec fn frame(tag: u8, text: Seq<char>) -> Seq<u8> {
    spec_u32_to_le_bytes((1 + encode_utf8(text).len()) as u32) + seq![tag] + encode_utf8(text)
}

/// A text short enough for its record length to fit the length field.
pub open spec fn fits_frame(text: Seq<char>) -> bool {
    1 + encode_utf8(text).len() <= u32::MAX
}

/// The log that appending the given records, in order, produces.
pub open spec fn log_of(records: Seq<(u8, Seq<char>)>) -> Seq<u8>
    decreases records.len(),
{
    if records.len() == 0 {
        Seq::empty()
    } else {
        frame(records[0].0, records[0].1) + log_of(records.drop_first())
    }
}

/// The items that reading back the given records yields.
pub open spec fn items_of(records: Seq<(u8, Seq<char>)>) -> Seq<ItemModel> {
    records.map_values(|r: (u8, Seq<char>)| ItemModel { item_type: r.0 as u32, content: r.1 })
}

/// `items` followed by what `rest` holds, or the failure of `rest`.
pub open spec fn prepend(items: Seq<ItemModel>, rest: Result<Seq<ItemModel>, LogError>) -> Result<
    Seq<ItemModel>,
    LogError,
> {
    match rest {
        Ok(r) => Ok(items + r),
        Err(e) => Err(e),
    }
}

/// The items that a log holds. Reading stops without error at a trailing
/// record that is cut short; a complete record without a tag byte or with a
/// payload that is not UTF-8 fails the whole read.
pub open spec fn scan(data: Seq<u8>) -> Result<Seq<ItemModel>, LogError>
    decreases data.len(),
{
    if data.len() < 4 {
        Ok(Seq::empty())
    } else {
        let len = spec_u32_from_le_bytes(data.subrange(0, 4)) as int;
        if data.len() < len + 4 {
            Ok(Seq::empty())
        } else if len == 0 {
            Err(LogError::MissingTag)
        } else {
            let payload = data.subrange(5, len + 4);
            if !valid_utf8(payload) {
                Err(LogError::InvalidText)
            } else {
                prepend(
                    seq![ItemModel { item_type: data[4] as u32, content: decode_utf8(payload) }],
                    scan(data.subrange(len + 4, data.len() as int)),
                )
            }
        }
    }
}

/// View of a read outcome.
pub open spec fn items_result_view(r: Result<Vec<Item>, LogError>) -> Result<
    Seq<ItemModel>,
    LogError,
> {
    match r {
        Ok(v) => Ok(v@.map_values(|i: Item| i@)),
        Err(e) => Err(e),
    }
}

/// Relies on std::str::from_utf8: it accepts exactly the byte strings that
/// are valid UTF-8, and the text it returns is the one they encode.
#[verifier::external_body]
fn utf8_text(bytes: &[u8]) -> (r: Option<String>)
    ensures
        match r {
            Some(s) => valid_utf8(bytes@) && encode_utf8(s@) == bytes@,
            None => !valid_utf8(bytes@),
        },
{
    match std::str::from_utf8(bytes) {
        Ok(s) => Some(s.to_string()),
        Err(_) => None,
    }
}

/// The bytes of one record of kind `item_type` holding `data`, ready to be
/// appended to a log in one write.
pub fn frame_item(item_type: ItemType, data: &str) -> (r: Vec<u8>)
    requires
        fits_frame(data@),
    ensures
        r@ == frame(item_type.spec_tag(), data@),
{
    let bytes = data.as_bytes();
    let total_len: u32 = (1 + bytes.len()) as u32;
    let mut out = u32_to_le_bytes(total_len);
    out.push(item_type.tag());
    let mut i: usize = 0;
    while i < bytes.len()
        invariant
            i <= bytes@.len(),
            bytes@ == encode_utf8(data@),
            out@ == spec_u32_to_le_bytes(total_len) + seq![item_type.spec_tag()] + bytes@.subrange(
                0,
                i as int,
            ),
        decreases bytes.len() - i,
    {
        out.push(bytes[i]);
        i = i + 1;
        assert(bytes@.subrange(0, i as int) =~= bytes@.subrange(0, i - 1).push(bytes@[i - 1]));
    }
    assert(bytes@.subrange(0, i as int) =~= bytes@);
    out
}

/// Reads every complete record of a log, in write order.
pub fn decode_items(data: &[u8]) -> (r: Result<Vec<Item>, LogError>)
    ensures
        items_result_view(r) == scan(data@),
{
    let mut result: Vec<Item> = Vec::new();
    let mut pos: usize = 0;
    assert(data@.subrange(0, data@.len() as int) =~= data@);
    while data.len() - pos >= 4
        invariant
            pos <= data@.len(),
            scan(data@) == prepend(
                result@.map_values(|i: Item| i@),
                scan(data@.subrange(pos as int, data@.len() as int)),
            ),
        decreases data.len() - pos,
    {
        let ghost rest = data@.subrange(pos as int, data@.len() as int);
        let len_bytes = slice_subrange(data, pos, pos + 4);
        assert(len_bytes@ =~= rest.subrange(0, 4));
        let len: u32 = u32_from_le_bytes(len_bytes);
        let remaining: usize = data.len() - pos - 4;
        if remaining < len as usize {
            assert(scan(rest) == Ok::<Seq<ItemModel>, LogError>(Seq::empty()));
            assert(result@.map_values(|i: Item| i@) + Seq::<ItemModel>::empty() =~= result@.map_values(
                |i: Item| i@,
            ));
            return Ok(result);
        }
        if len == 0 {
            return Err(LogError::MissingTag);
        }
        let end: usize = pos + 4 + len as usize;
        let payload = slice_subrange(data, pos + 5, end);
        assert(payload@ =~= rest.subrange(5, len + 4));
        let content = match utf8_text(payload) {
            Some(s) => s,
            None => {
                return Err(LogError::InvalidText);
            },
        };
        proof {
            encode_utf8_decode_utf8(content@);
        }
        let item = Item { item_type: data[pos + 4] as u32, content };
        let ghost before = result@;
        result.push(item);
        assert(rest.subrange(len + 4, rest.len() as int) =~= data@.subrange(
            end as int,
            data@.len() as int,
        ));
        assert(result@.map_values(|i: Item| i@) =~= before.map_values(|i: Item| i@) + seq![item@]);
        assert(rest[4] == data@[pos + 4]);
        proof {
            let next = data@.subrange(end as int, data@.len() as int);
            assert(decode_utf8(rest.subrange(5, len + 4)) == content@);
            match scan(next) {
                Ok(tail) => {
                    assert(before.map_values(|i: Item| i@) + (seq![item@] + tail) =~= (before.map_values(
                        |i: Item| i@,
                    ) + seq![item@]) + tail);
                },
                Err(_) => {},
            }
        }
        pos = end;
    }
    proof {
        let rest = data@.subrange(pos as int, data@.len() as int);
        assert(scan(rest) == Ok::<Seq<ItemModel>, LogError>(Seq::empty()));
        assert(result@.map_values(|i: Item| i@) + Seq::<ItemModel>::empty() =~= result@.map_values(
            |i: Item| i@,
        ));
    }
    Ok(result)
}

/// Every text of `records` fits the length field.
pub open spec fn all_fit(records: Seq<(u8, Seq<char>)>) -> bool {
    forall|i: int| 0 <= i < records.len() ==> fits_frame(#[trigger] records[i].1)
}

proof fn lemma_scan_frame(tag: u8, text: Seq<char>, rest: Seq<u8>)
    requires
        fits_frame(text),
    ensures
        scan(frame(tag, text) + rest) == prepend(
            seq![ItemModel { item_type: tag as u32, content: text }],
            scan(rest),
        ),
{
    lemma_auto_spec_u32_to_from_le_bytes();
    encode_utf8_valid_utf8(text);
    encode_utf8_decode_utf8(text);
    let enc = encode_utf8(text);
    let n = (1 + enc.len()) as u32;
    let data = frame(tag, text) + rest;
    assert(spec_u32_to_le_bytes(n).len() == 4);
    assert(data.subrange(0, 4) =~= spec_u32_to_le_bytes(n));
    assert(data.subrange(5, n + 4) =~= enc);
    assert(data.subrange(n + 4, data.len() as int) =~= rest);
    assert(data[4] == tag);
}

proof fn lemma_scan_log(records: Seq<(u8, Seq<char>)>, tail: Seq<u8>)
    requires
        all_fit(records),
    ensures
        scan(log_of(records) + tail) == prepend(items_of(records), scan(tail)),
    decreases records.len(),
{
    if records.len() == 0 {
        assert(log_of(records) + tail =~= tail);
        match scan(tail) {
            Ok(t) => {
                assert(items_of(records) + t =~= t);
            },
            Err(_) => {},
        }
    } else {
        let r = records[0];
        let rs = records.drop_first();
        assert forall|i: int| 0 <= i < rs.len() implies fits_frame(#[trigger] rs[i].1) by {
            assert(rs[i] == records[i + 1]);
        }
        lemma_scan_log(rs, tail);
        assert(log_of(records) + tail =~= frame(r.0, r.1) + (log_of(rs) + tail));
        lemma_scan_frame(r.0, r.1, log_of(rs) + tail);
        let head = seq![ItemModel { item_type: r.0 as u32, content: r.1 }];
        assert(items_of(records) =~= head + items_of(rs));
        match scan(tail) {
            Ok(t) => {
                assert(head + (items_of(rs) + t) =~= items_of(records) + t);
            },
            Err(_) => {},
        }
    }
}

proof fn lemma_log_split(records: Seq<(u8, Seq<char>)>, k: int)
    requires
        0 <= k <= records.len(),
    ensures
        log_of(records) == log_of(records.subrange(0, k)) + log_of(
            records.subrange(k, records.len() as int),
        ),
    decreases k,
{
    if k == 0 {
        assert(records.subrange(0, records.len() as int) =~= records);
        assert(log_of(records.subrange(0, 0)) =~= Seq::<u8>::empty());
        assert(log_of(records) =~= Seq::<u8>::empty() + log_of(records));
    } else {
        let rs = records.drop_first();
        lemma_log_split(rs, k - 1);
        assert(rs.subrange(0, k - 1) =~= records.subrange(0, k).drop_first());
        assert(rs.subrange(k - 1, rs.len() as int) =~= records.subrange(k, records.len() as int));
        assert(records.subrange(0, k)[0] == records[0]);
        assert(log_of(records) =~= log_of(records.subrange(0, k)) + log_of(
            records.subrange(k, records.len() as int),
        ));
    }
}

/// Record-level round trip: a log written by appending `records`, each
/// framed by `frame_item`, reads back as exactly those records, one item per
/// record, in write order.
pub proof fn lemma_log_round_trip(records: Seq<(u8, Seq<char>)>)
    requires
        all_fit(records),
    ensures
        scan(log_of(records)) == Ok::<Seq<ItemModel>, LogError>(items_of(records)),
{
    lemma_scan_log(records, Seq::empty());
    assert(log_of(records) + Seq::<u8>::empty() =~= log_of(records));
    assert(items_of(records) + Seq::<ItemModel>::empty() =~= items_of(records));
}

/// Crash tolerance: a log cut at a point strictly inside record `k` reads
/// back, without error, as the records before `k`.
pub proof fn lemma_truncated_log(records: Seq<(u8, Seq<char>)>, k: int, cut: int)
    requires
        all_fit(records),
        0 <= k < records.len(),
        0 < cut < frame(records[k].0, records[k].1).len(),
    ensures
        scan(log_of(records).subrange(0, log_of(records.subrange(0, k)).len() + cut)) == Ok::<
            Seq<ItemModel>,
            LogError,
        >(items_of(records.subrange(0, k))),
{
    lemma_auto_spec_u32_to_from_le_bytes();
    let front = records.subrange(0, k);
    let back = records.subrange(k, records.len() as int);
    lemma_log_split(records, k);
    let f = frame(records[k].0, records[k].1);
    assert(back[0] == records[k]);
    assert(log_of(back) =~= f + log_of(back.drop_first()));
    let part = f.subrange(0, cut);
    assert(log_of(records).subrange(0, log_of(front).len() + cut) =~= log_of(front) + part);
    assert forall|i: int| 0 <= i < front.len() implies fits_frame(#[trigger] front[i].1) by {
        assert(front[i] == records[i]);
    }
    lemma_scan_log(front, part);
    let n = (1 + encode_utf8(records[k].1).len()) as u32;
    if part.len() >= 4 {
        assert(part.subrange(0, 4) =~= spec_u32_to_le_bytes(n));
    }
    assert(scan(part) == Ok::<Seq<ItemModel>, LogError>(Seq::empty()));
    assert(items_of(front) + Seq::<ItemModel>::empty() =~= items_of(front));
}

} // verus!
