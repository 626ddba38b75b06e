//! Messages read from an archive, and what an upload of one carries.
use vstd::prelude::*;
use vstd::pervasive::VecAdditionalExecFns;
use mail_parser::mailbox::mbox;
use std::io::Cursor;

verus! {

/// A maildir flag.
#[derive(Clone, Copy, Debug, PartialEq, Eq, Structural)]
pub enum Flag {
    Passed,
    Replied,
    Seen,
    Trashed,
    Draft,
    Flagged,
}

/// A message as the archive yields it.
#[derive(Clone, Debug, PartialEq, Eq)]
pub struct SourceMessage {
    /// The sender of an mbox message, the file name of a maildir one.
    pub identifier: String,
    pub flags: Vec<Flag>,
    /// Seconds since the epoch; zero when not known.
    pub received: u64,
    pub contents: Vec<u8>,
}

/// The keyword that stands for a flag on the server.
pub open spec fn keyword_spec(f: Flag) -> Seq<char> {
    match f {
        Flag::Passed => "$passed"@,
        Flag::Replied => "$answered"@,
        Flag::Seen => "$seen"@,
        Flag::Trashed => "$deleted"@,
        Flag::Draft => "$draft"@,
        Flag::Flagged => "$flagged"@,
    }
}

/// The keyword that stands for `f` on the server.
pub fn keyword(f: Flag) -> (r: String)
    ensures
        r@ == keyword_spec(f),
{
    match f {
        Flag::Passed => String::from_str("$passed"),
        Flag::Replied => String::from_str("$answered"),
        Flag::Seen => String::from_str("$seen"),
        Flag::Trashed => String::from_str("$deleted"),
        Flag::Draft => String::from_str("$draft"),
        Flag::Flagged => String::from_str("$flagged"),
    }
}

/// The keywords to upload a message with: none at all when it has no flag,
/// else one per flag, in order.
pub fn keywords(flags: &Vec<Flag>) -> (r: Option<Vec<String>>)
    ensures
        r is None <==> flags.len() == 0,
        match r {
            Some(ks) => ks.deep_view() == flags@.map_values(|f: Flag| keyword_spec(f)),
            None => true,
        },
{
    if flags.len() == 0 {
        return None;
    }
    let mut ks: Vec<String> = Vec::new();
    let mut i: usize = 0;
    while i < flags.len()
        invariant
            i <= flags.len(),
            ks.deep_view() =~= flags@.map_values(|f: Flag| keyword_spec(f)).take(i as int),
        decreases flags.len() - i,
    {
        let ghost before = ks.deep_view();
        let k = keyword(flags[i]);
        ks.push(k);
        assert(ks.deep_view() =~= before.push(k@));
        i = i + 1;
    }
    Some(ks)
}

/// The received time to upload a message with: none when it is not known
/// (zero) or beyond what the server's signed timestamps hold.
pub fn received_at(date: u64) -> (r: Option<i64>)
    ensures
        r is Some <==> 0 < date <= i64::MAX,
        r is Some ==> r->Some_0 == date as int,
{
    if 0 < date && date <= i64::MAX as u64 {
        Some(date as i64)
    } else {
        None
    }
}

/// One message of an mbox file as the parser yields it.
#[derive(Clone, Debug, PartialEq, Eq)]
pub struct MboxEntry {
    pub from: String,
    pub internal_date: u64,
    pub contents: Vec<u8>,
}

/// What the mbox parser yields for the bytes of an mbox file: per message,
/// its sender, date and contents, or nothing where it failed.
pub uninterp spec fn mbox_split(data: Seq<u8>) -> Seq<Option<(Seq<char>, u64, Seq<u8>)>>;

/// Relies on `mail_parser::mailbox::mbox::MessageIterator` over the bytes in
/// memory: it yields the messages of the file in order, each with its
/// envelope sender, date and contents, a function of the bytes alone.
#[verifier::external_body]
fn split_mbox(data: Vec<u8>) -> (r: Vec<Option<MboxEntry>>)
    ensures
        r.len() == mbox_split(data@).len(),
        forall|i: int|
            0 <= i < r.len() ==> match #[trigger] r[i] {
                Some(e) => mbox_split(data@)[i] == Some((e.from@, e.internal_date, e.contents@)),
                None => mbox_split(data@)[i] is None,
            },
{
    mbox::MessageIterator::new(Cursor::new(data)).map(|r| r.ok().map(|m| MboxEntry {
        from: m.from().to_string(),
        internal_date: m.internal_date(),
        contents: m.unwrap_contents(),
    })).collect()
}

/// Whether `r` is what the reader makes of the parser's item `item`: a
/// message named by its sender, without flags, or a failure.
pub open spec fn mbox_item_as(item: Option<(Seq<char>, u64, Seq<u8>)>, r: Result<
    SourceMessage,
    String,
>) -> bool {
    match item {
        Some((from, date, contents)) => match r {
            Ok(m) => m.identifier@ == from && m.flags@.len() == 0 && m.received == date
                && m.contents@ == contents,
            Err(_) => false,
        },
        None => r is Err,
    }
}

/// Reads the messages of an mbox file, in order; a message that cannot be
/// parsed comes out as a failure and reading goes on.
pub fn read_mbox(data: Vec<u8>) -> (r: Vec<Result<SourceMessage, String>>)
    ensures
        r.len() == mbox_split(data@).len(),
        forall|i: int| 0 <= i < r.len() ==> mbox_item_as(mbox_split(data@)[i], #[trigger] r[i]),
{
    let ghost items = mbox_split(data@);
    let mut entries = split_mbox(data);
    let mut r: Vec<Result<SourceMessage, String>> = Vec::new();
    let mut i: usize = 0;
    let n = entries.len();
    while i < n
        invariant
            n == entries.len(),
            i <= n,
            n == items.len(),
            r.len() == i,
            forall|k: int|
                i <= k < n ==> match #[trigger] entries@[k] {
                    Some(e) => items[k] == Some((e.from@, e.internal_date, e.contents@)),
                    None => items[k] is None,
                },
            forall|k: int| 0 <= k < i ==> mbox_item_as(items[k], #[trigger] r[k]),
        decreases n - i,
    {
        let mut item: Option<MboxEntry> = None;
        entries.set_and_swap(i, &mut item);
        let out = match item {
            Some(e) => Ok(
                SourceMessage {
                    identifier: e.from,
                    flags: Vec::new(),
                    received: e.internal_date,
                    contents: e.contents,
                },
            ),
            None => Err(String::from_str("Failed to parse from mbox file.")),
        };
        r.push(out);
        i = i + 1;
    }
    r
}

} // verus!
