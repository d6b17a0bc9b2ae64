//! An append form for an interactive front end: which inputs it accepts,
//! the timestamp it asks for, how a submission signs and appends, and how an
//! appended entry enters the list of entries on show.
use vstd::prelude::*;

use crate::ledger::views;
use crate::ledger::append_outcome;
use crate::ledger::prepare_outcome;
use crate::ledger::Ledger;
use crate::ledger::LedgerEntry;
use crate::ledger::LedgerError;
use crate::text::blank;
use crate::text::is_blank;
use crate::text::is_white_space;

verus! {

/// Why a text is not a `u64`, after the kinds of std's `ParseIntError`: an
/// empty text, a character that is not a digit in its place, a value too
/// large, or a kind that parsing a `u64` does not report.
#[derive(Debug, Clone, Copy, PartialEq, Eq)]
pub enum ParseFailure {
    Empty,
    InvalidDigit,
    PosOverflow,
    Other,
}

/// The kind of the `ParseIntError` that `u64::from_str` reports for a text
/// that it rejects.
pub uninterp spec fn u64_parse_failure_of(text: Seq<char>) -> ParseFailure;

/// The text without its leading white space.
pub open spec fn trim_start(t: Seq<char>) -> Seq<char>
    decreases t.len(),
{
    if t.len() > 0 && is_white_space(t[0]) {
        trim_start(t.drop_first())
    } else {
        t
    }
}

/// The text without its trailing white space.
pub open spec fn trim_end(t: Seq<char>) -> Seq<char>
    decreases t.len(),
{
    if t.len() > 0 && is_white_space(t.last()) {
        trim_end(t.drop_last())
    } else {
        t
    }
}

/// The text without leading and trailing white space.
pub open spec fn trimmed(t: Seq<char>) -> Seq<char> {
    trim_end(trim_start(t))
}

/// Whether a character is an ASCII decimal digit.
pub open spec fn is_digit(c: char) -> bool {
    '0' <= c <= '9'
}

/// The value of a string of decimal digits.
pub open spec fn decimal_value(digits: Seq<char>) -> int
    decreases digits.len(),
{
    if digits.len() == 0 {
        0
    } else {
        decimal_value(digits.drop_last()) * 10 + (digits.last() as int - '0' as int)
    }
}

/// The digits of a `u64` text: the text after an optional leading `+`.
pub open spec fn unsigned_digits(t: Seq<char>) -> Seq<char> {
    if t.len() > 0 && t[0] == '+' {
        t.drop_first()
    } else {
        t
    }
}

/// Whether std parses `t` as a `u64`: an optional `+`, then at least one
/// decimal digit and nothing else, with a value that fits.
pub open spec fn parses_as_u64(t: Seq<char>) -> bool {
    let digits = unsigned_digits(t);
    &&& digits.len() > 0
    &&& forall|i: int| 0 <= i < digits.len() ==> is_digit(#[trigger] digits[i])
    &&& decimal_value(digits) <= u64::MAX
}

/// `str::trim`: the text without leading and trailing `White_Space`.
#[verifier::external_body]
fn trim(text: &str) -> (t: &str)
    ensures
        t@ == trimmed(text@),
{
    text.trim()
}

/// `str::parse::<u64>` (`u64::from_str`), which std documents as an optional
/// `+` followed by decimal digits only. The error's `kind()` is carried over
/// variant by variant and named by `u64_parse_failure_of`. As std documents
/// the kinds: an empty text is `Empty`; a lone `+` is `InvalidDigit`; digits
/// only, too large, are `PosOverflow`; a text of at most 19 characters, which
/// cannot be too large, with a character that is not a digit in its place is
/// `InvalidDigit`. Which kind comes for a longer text that is both too large
/// and holds such a character is left unsaid.
#[verifier::external_body]
fn parse_u64(text: &str) -> (r: Result<u64, ParseFailure>)
    ensures
        r is Ok <==> parses_as_u64(text@),
        r matches Ok(v) ==> v == decimal_value(unsigned_digits(text@)),
        r matches Err(k) ==> k == u64_parse_failure_of(text@),
        r matches Err(k) ==> (text@.len() == 0 ==> k == ParseFailure::Empty),
        r matches Err(k) ==> (text@ == seq!['+'] ==> k == ParseFailure::InvalidDigit),
        r matches Err(k) ==> (unsigned_digits(text@).len() > 0 && (forall|i: int|
            0 <= i < unsigned_digits(text@).len() ==> is_digit(#[trigger] unsigned_digits(text@)[i]))
            ==> k == ParseFailure::PosOverflow),
        r matches Err(k) ==> (0 < text@.len() <= 19 && (exists|i: int|
            0 <= i < unsigned_digits(text@).len() && !is_digit(#[trigger] unsigned_digits(text@)[i]))
            ==> k == ParseFailure::InvalidDigit),
{
    match text.parse::<u64>() {
        Ok(v) => Ok(v),
        Err(e) => Err(match e.kind() {
            core::num::IntErrorKind::Empty => ParseFailure::Empty,
            core::num::IntErrorKind::InvalidDigit => ParseFailure::InvalidDigit,
            core::num::IntErrorKind::PosOverflow => ParseFailure::PosOverflow,
            _ => ParseFailure::Other,
        }),
    }
}

/// Why the append form cannot be submitted.
#[derive(Debug)]
pub enum FormError {
    EmptyPayload,
    MissingSecret,
    InvalidTimestamp(ParseFailure),
}

/// The inputs of the append form.
#[derive(Debug, Clone)]
pub struct AppendForm {
    pub payload_input: String,
    pub secret_input: String,
    pub timestamp_input: String,
}

/// Trimming leaves nothing exactly when the text is white space only.
pub proof fn lemma_trimmed_empty(t: Seq<char>)
    ensures
        (trimmed(t).len() == 0) <==> blank(t),
    decreases t.len(),
{
    lemma_trim_start_empty(t);
    if trim_start(t).len() > 0 {
        lemma_trim_start_first(t);
        lemma_trim_end_keeps_first(trim_start(t));
    }
}

proof fn lemma_trim_start_empty(t: Seq<char>)
    ensures
        (trim_start(t).len() == 0) <==> blank(t),
    decreases t.len(),
{
    if t.len() > 0 && is_white_space(t[0]) {
        lemma_trim_start_empty(t.drop_first());
        if blank(t.drop_first()) {
            assert forall|i: int| 0 <= i < t.len() implies is_white_space(#[trigger] t[i]) by {
                if i > 0 {
                    assert(t[i] == t.drop_first()[i - 1]);
                }
            }
        }
        if blank(t) {
            assert forall|i: int| 0 <= i < t.drop_first().len() implies is_white_space(
                #[trigger] t.drop_first()[i],
            ) by {
                assert(t.drop_first()[i] == t[i + 1]);
            }
        }
    } else if t.len() > 0 {
        assert(!is_white_space(t[0]));
    }
}

proof fn lemma_trim_start_first(t: Seq<char>)
    requires
        trim_start(t).len() > 0,
    ensures
        !is_white_space(trim_start(t)[0]),
    decreases t.len(),
{
    if t.len() > 0 && is_white_space(t[0]) {
        lemma_trim_start_first(t.drop_first());
    }
}

proof fn lemma_trim_end_keeps_first(t: Seq<char>)
    requires
        t.len() > 0,
        !is_white_space(t[0]),
    ensures
        trim_end(t).len() > 0,
    decreases t.len(),
{
    if is_white_space(t.last()) {
        assert(t.len() > 1);
        assert(t.drop_last()[0] == t[0]);
        lemma_trim_end_keeps_first(t.drop_last());
    }
}

/// The timestamp that a timestamp input asks for: `None` (the current time)
/// for a blank input, otherwise the `u64` of the trimmed input.
pub fn read_timestamp_input(text: &str) -> (r: Result<Option<u64>, ParseFailure>)
    ensures
        blank(text@) ==> r == Ok::<Option<u64>, ParseFailure>(None),
        !blank(text@) ==> (r is Ok <==> parses_as_u64(trimmed(text@))),
        !blank(text@) ==> (r matches Ok(Some(v)) ==> v == decimal_value(
            unsigned_digits(trimmed(text@)),
        )),
        !blank(text@) ==> !(r matches Ok(None)),
        r matches Err(k) ==> k == u64_parse_failure_of(trimmed(text@)),
{
    if is_blank(text) {
        return Ok(None);
    }
    match parse_u64(trim(text)) {
        Ok(v) => Ok(Some(v)),
        Err(e) => Err(e),
    }
}

impl AppendForm {
    /// Checks the inputs before an append: a payload and a secret that are
    /// not blank, then the timestamp input. Gives the timestamp to use, `None`
    /// for the current time.
    pub fn check(&self) -> (r: Result<Option<u64>, FormError>)
        ensures
            blank(self.payload_input@) ==> r matches Err(FormError::EmptyPayload),
            !blank(self.payload_input@) && blank(self.secret_input@) ==> r matches Err(
                FormError::MissingSecret,
            ),
            !blank(self.payload_input@) && !blank(self.secret_input@) && blank(self.timestamp_input@)
                ==> r matches Ok(None),
            !blank(self.payload_input@) && !blank(self.secret_input@) && !blank(self.timestamp_input@)
                && parses_as_u64(trimmed(self.timestamp_input@)) ==> (r matches Ok(Some(v)) && v
                == decimal_value(unsigned_digits(trimmed(self.timestamp_input@)))),
            !blank(self.payload_input@) && !blank(self.secret_input@) && !blank(self.timestamp_input@)
                && !parses_as_u64(trimmed(self.timestamp_input@)) ==> (r matches Err(
                FormError::InvalidTimestamp(k),
            ) && k == u64_parse_failure_of(trimmed(self.timestamp_input@))),
    {
        if is_blank(self.payload_input.as_str()) {
            return Err(FormError::EmptyPayload);
        }
        if is_blank(self.secret_input.as_str()) {
            return Err(FormError::MissingSecret);
        }
        match read_timestamp_input(self.timestamp_input.as_str()) {
            Ok(t) => Ok(t),
            Err(e) => Err(FormError::InvalidTimestamp(e)),
        }
    }

    /// After a successful append: the payload and timestamp inputs are
    /// cleared, the secret is kept for the next append.
    pub fn clear_after_append(&mut self)
        ensures
            final(self).payload_input@ == Seq::<char>::empty(),
            final(self).timestamp_input@ == Seq::<char>::empty(),
            final(self).secret_input@ == old(self).secret_input@,
    {
        self.payload_input = String::new();
        self.timestamp_input = String::new();
    }
}

/// The first position in `entries` of an entry with index `index`.
pub open spec fn position_of(entries: Seq<LedgerEntry>, index: u64) -> Option<int> {
    if exists|k: int| 0 <= k < entries.len() && #[trigger] entries[k].index == index {
        Some(
            choose|k: int|
                0 <= k < entries.len() && #[trigger] entries[k].index == index && forall|j: int|
                    0 <= j < k ==> #[trigger] entries[j].index != index,
        )
    } else {
        None
    }
}

/// Puts an appended entry into the shown list: in place of the first entry
/// with the same index, or at the end where there is none.
pub fn upsert_entry(entries: &mut Vec<LedgerEntry>, entry: LedgerEntry)
    ensures
        match position_of(old(entries)@, entry.index) {
            Some(k) => views(final(entries)@) == views(old(entries)@).update(k, entry@),
            None => views(final(entries)@) == views(old(entries)@).push(entry@),
        },
{
    let n = entries.len();
    let mut i: usize = 0;
    while i < n
        invariant
            i <= n,
            n == entries@.len(),
            entries@ == old(entries)@,
            forall|j: int| 0 <= j < i ==> #[trigger] entries@[j].index != entry.index,
        decreases n - i,
    {
        if entries[i].index == entry.index {
            proof {
                let k = i as int;
                assert(0 <= k < entries@.len() && entries@[k].index == entry.index);
                let c = choose|c: int|
                    0 <= c < entries@.len() && #[trigger] entries@[c].index == entry.index
                        && forall|j: int| 0 <= j < c ==> #[trigger] entries@[j].index != entry.index;
                assert(0 <= c < entries@.len() && entries@[c].index == entry.index
                    && forall|j: int| 0 <= j < c ==> #[trigger] entries@[j].index != entry.index);
                if c < k {
                    assert(entries@[c].index != entry.index);
                }
                if k < c {
                    assert(entries@[k].index != entry.index);
                }
            }
            let ghost before = entries@;
            entries.set(i, entry);
            assert(views(entries@) =~= views(before).update(i as int, entries@[i as int]@));
            return;
        }
        i = i + 1;
    }
    let ghost before = entries@;
    entries.push(entry);
    assert(views(entries@) =~= views(before).push(entries@[n as int]@));
}

/// A copy of an entry.
fn copy_entry(e: &LedgerEntry) -> (c: LedgerEntry)
    ensures
        c@ == e@,
{
    LedgerEntry {
        index: e.index,
        timestamp: e.timestamp,
        payload: e.payload.clone(),
        prev_hash: e.prev_hash.clone(),
        hash: e.hash.clone(),
        public_key: e.public_key.clone(),
        signature: e.signature.clone(),
    }
}

impl AppendForm {
    /// Submits the checked form at `timestamp`: signs the payload with the
    /// secret for the next entry of `ledger`, appends it, shows it in `shown`
    /// and clears the payload and timestamp inputs. Gives the new entry's
    /// index. When signing or appending is refused, nothing changes.
    pub fn append_to(&mut self, ledger: &mut Ledger, shown: &mut Vec<LedgerEntry>, timestamp: u64) -> (r:
        Result<u64, LedgerError>)
        ensures
            match prepare_outcome(old(ledger)@, old(self).payload_input@, old(self).secret_input@, timestamp) {
                Err(f) => r matches Err(e) && e.fault() == f,
                Ok(request) => match append_outcome(old(ledger)@, request) {
                    Err(f) => r matches Err(e) && e.fault() == f,
                    Ok(entry) => {
                        &&& r == Ok::<u64, LedgerError>(entry.index)
                        &&& final(ledger)@ == old(ledger)@.push(entry)
                        &&& match position_of(old(shown)@, entry.index) {
                            Some(k) => views(final(shown)@) == views(old(shown)@).update(k, entry),
                            None => views(final(shown)@) == views(old(shown)@).push(entry),
                        }
                        &&& final(self).payload_input@ == Seq::<char>::empty()
                        &&& final(self).timestamp_input@ == Seq::<char>::empty()
                        &&& final(self).secret_input@ == old(self).secret_input@
                    },
                },
            },
            r is Err ==> final(ledger)@ == old(ledger)@ && final(shown)@ == old(shown)@
                && final(self).payload_input@ == old(self).payload_input@
                && final(self).timestamp_input@ == old(self).timestamp_input@
                && final(self).secret_input@ == old(self).secret_input@,
    {
        let request = match ledger.prepare_append(
            self.payload_input.clone(),
            self.secret_input.as_str(),
            timestamp,
        ) {
            Ok(request) => request,
            Err(e) => {
                return Err(e);
            },
        };
        let entry = match ledger.append(request) {
            Ok(entry) => copy_entry(entry),
            Err(e) => {
                return Err(e);
            },
        };
        let index = entry.index;
        upsert_entry(shown, entry);
        self.clear_after_append();
        Ok(index)
    }
}

} // verus!
