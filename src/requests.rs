use vstd::prelude::*;
use crate::buckets::bucket_bounds;
use crate::events::{compressed, existing_of, overlapping, Note, NoteView};
use crate::timing::{TimeRange, Timing};

verus! {

/// Why a request was turned down.
#[derive(Clone, Debug)]
pub enum ApiError {
    /// The caller is not signed in.
    AuthenticationError,
    /// The request's timing is a range that runs backwards.
    ValidationError,
    /// The store failed; its message is carried along.
    StoreError(String),
    /// Every later instant has already been handed out as a note id.
    IdsExhausted,
}

impl ApiError {
    /// The HTTP status the error is answered with.
    pub fn http_status(&self) -> (r: u16)
        ensures
            r == match self {
                ApiError::AuthenticationError => 401u16,
                ApiError::ValidationError => 400u16,
                ApiError::StoreError(_) => 500u16,
                ApiError::IdsExhausted => 500u16,
            },
    {
        match self {
            ApiError::AuthenticationError => 401,
            ApiError::ValidationError => 400,
            ApiError::StoreError(_) => 500,
            ApiError::IdsExhausted => 500,
        }
    }
}

/// The body of a request to record a note.
#[derive(Clone, Debug)]
pub struct CreateTextRequest {
    pub text: String,
    pub timing: Timing,
}

/// A change the store is asked to make.
#[derive(Clone, Debug)]
pub enum StoreWrite {
    /// Record a new note under this plugin's category.
    Insert(Note),
    /// Remove at most one note with this id that belongs to `plugin`.
    DeleteOne { plugin: String, id: String },
}

/// The category under which this plugin's notes are stored.
pub open spec fn plugin_name() -> Seq<char> {
    "timeline_plugin_text"@
}

/// The category under which this plugin's notes are stored.
pub fn plugin_type() -> (r: String)
    ensures
        r@ == plugin_name(),
{
    broadcast use vstd::string::to_string_from_display_ensures_for_str;

    "timeline_plugin_text".to_string()
}

pub open spec fn digit_char(d: int) -> char {
    seq!['0', '1', '2', '3', '4', '5', '6', '7', '8', '9'][d]
}

/// The decimal digits of `n`, most significant first.
pub open spec fn digits_of(n: nat) -> Seq<char>
    decreases n,
{
    if n < 10 {
        seq![digit_char(n as int)]
    } else {
        digits_of(n / 10).push(digit_char((n % 10) as int))
    }
}

/// `n` written in decimal, with a leading minus sign when negative.
pub open spec fn decimal_of(n: int) -> Seq<char> {
    if n < 0 {
        seq!['-'] + digits_of((-n) as nat)
    } else {
        digits_of(n as nat)
    }
}

/// Relies on `ToString` for `i64`, which goes through its `Display`: the
/// number in decimal, with a minus sign when negative.
#[verifier::external_body]
fn decimal_string(n: i64) -> (r: String)
    ensures
        r@ == decimal_of(n as int),
{
    n.to_string()
}

/// Relies on chrono's `From<SystemTime> for DateTime<Utc>` and
/// `DateTime::timestamp_millis`: the system clock in milliseconds since the
/// Unix epoch, negative for a clock set before it. Nothing is promised of
/// the reading.
#[verifier::external_body]
fn clock_millis() -> (r: i64) {
    chrono::DateTime::<chrono::Utc>::from(std::time::SystemTime::now()).timestamp_millis()
}

/// The note that a request creates when the clock reads `clock` (in
/// milliseconds): its id is the clock reading in decimal.
pub open spec fn created_note(text: Seq<char>, timing: Timing, clock: int) -> NoteView {
    NoteView { id: decimal_of(clock), text, timing }
}

/// The single guard in front of every write: only a signed-in caller passes.
pub fn authorize(authenticated: bool) -> (r: Result<(), ApiError>)
    ensures
        authenticated ==> r is Ok,
        !authenticated ==> r matches Err(ApiError::AuthenticationError),
{
    if authenticated {
        Ok(())
    } else {
        Err(ApiError::AuthenticationError)
    }
}

/// The note that `request` creates when the clock reads `clock`.
pub fn new_note(request: &CreateTextRequest, clock: i64) -> (r: Note)
    ensures
        r@ == created_note(request.text@, request.timing, clock as int),
{
    Note { id: decimal_string(clock), text: request.text.clone(), timing: request.timing }
}

/// Decides what a request to record a note does, the clock reading
/// `clock`: a caller who is not signed in is refused, a range that runs
/// backwards is refused, and otherwise the note is inserted.
pub fn create_text(authenticated: bool, request: &CreateTextRequest, clock: i64) -> (r: Result<
    StoreWrite,
    ApiError,
>)
    ensures
        !authenticated ==> r matches Err(ApiError::AuthenticationError),
        authenticated && !request.timing.wf() ==> r matches Err(ApiError::ValidationError),
        authenticated && request.timing.wf() ==> (r matches Ok(StoreWrite::Insert(n)) && n@
            == created_note(request.text@, request.timing, clock as int)),
{
    authorize(authenticated)?;
    validate(request)?;
    Ok(StoreWrite::Insert(new_note(request, clock)))
}

/// Refuses a request whose timing is a range that runs backwards.
pub fn validate(request: &CreateTextRequest) -> (r: Result<(), ApiError>)
    ensures
        request.timing.wf() ==> r is Ok,
        !request.timing.wf() ==> r matches Err(ApiError::ValidationError),
{
    if let Timing::Range(range) = request.timing {
        if range.is_reversed() {
            return Err(ApiError::ValidationError);
        }
    }
    Ok(())
}

/// The reading a new note takes after `last` when the clock reads `clock`:
/// the clock itself when it is past `last`, else the instant just after
/// `last`; none when no later instant is left.
pub open spec fn next_reading(last: Option<i64>, clock: int) -> Option<int> {
    match last {
        None => Some(clock),
        Some(l) => if clock > l {
            Some(clock)
        } else if l < i64::MAX {
            Some(l + 1)
        } else {
            None
        },
    }
}

/// Hands out the clock readings that new notes take as ids, each strictly
/// later than the one before, so that no two notes created through it
/// share an id.
pub struct IdClock {
    /// The last reading handed out, if any.
    pub last: Option<i64>,
}

impl IdClock {
    pub fn new() -> (r: IdClock)
        ensures
            r.last is None,
    {
        IdClock { last: None }
    }

    /// The reading for a new note when the clock reads `clock`; it becomes
    /// the last reading handed out. Nothing changes when no later instant
    /// is left.
    pub fn issue(&mut self, clock: i64) -> (r: Option<i64>)
        ensures
            r matches Some(v) ==> next_reading(old(self).last, clock as int) == Some(v as int)
                && final(self).last == Some(v),
            r is None ==> next_reading(old(self).last, clock as int) is None && *final(self)
                == *old(self),
    {
        let next: Option<i64> = match self.last {
            None => Some(clock),
            Some(l) => if clock > l {
                Some(clock)
            } else if l < i64::MAX {
                Some(l + 1)
            } else {
                None
            },
        };
        if let Some(v) = next {
            self.last = Some(v);
        }
        next
    }
}

/// Like `create_text`, reading the clock only once the request has passed
/// the checks, and taking the note's id from `ids`, so that it is later
/// than every id `ids` handed out before.
pub fn create_text_now(authenticated: bool, request: &CreateTextRequest, ids: &mut IdClock) -> (r:
    Result<StoreWrite, ApiError>)
    ensures
        !authenticated ==> (r matches Err(ApiError::AuthenticationError) && *final(ids)
            == *old(ids)),
        authenticated && !request.timing.wf() ==> (r matches Err(ApiError::ValidationError)
            && *final(ids) == *old(ids)),
        authenticated && request.timing.wf() && old(ids).last == Some(i64::MAX) ==> (r matches Err(
            ApiError::IdsExhausted,
        ) && *final(ids) == *old(ids)),
        authenticated && request.timing.wf() && old(ids).last != Some(i64::MAX) ==> (r matches Ok(
            StoreWrite::Insert(n),
        ) && final(ids).last is Some && n@ == created_note(
            request.text@,
            request.timing,
            final(ids).last.unwrap() as int,
        ) && (old(ids).last is Some ==> final(ids).last.unwrap() > old(ids).last.unwrap())),
{
    authorize(authenticated)?;
    validate(request)?;
    let clock = clock_millis();
    let reading = match ids.issue(clock) {
        Some(v) => v,
        None => return Err(ApiError::IdsExhausted),
    };
    create_text(authenticated, request, reading)
}

/// Decides what a request to delete the note `id` does: a caller who is
/// not signed in is refused; otherwise at most one note with that id, and
/// of this plugin's category, is removed.
pub fn delete_text(authenticated: bool, id: &String) -> (r: Result<StoreWrite, ApiError>)
    ensures
        !authenticated ==> r matches Err(ApiError::AuthenticationError),
        authenticated ==> (r matches Ok(StoreWrite::DeleteOne { plugin, id: target }) && plugin@
            == plugin_name() && target@ == id@),
{
    authorize(authenticated)?;
    Ok(StoreWrite::DeleteOne { plugin: plugin_type(), id: id.clone() })
}

/// The answer to a write once the store has replied: success when the
/// store succeeded, and otherwise the store's error, passed on.
pub fn finish_create(result: Result<(), String>) -> (r: Result<(), ApiError>)
    ensures
        result is Ok <==> r is Ok,
        result matches Err(m) ==> r matches Err(ApiError::StoreError(e)) && e@ == m@,
{
    match result {
        Ok(()) => Ok(()),
        Err(m) => Err(ApiError::StoreError(m)),
    }
}

/// The answer to a delete once the store has replied with the number of
/// notes removed: success whatever that number, so deleting an id that
/// does not exist succeeds; the store's error, passed on, otherwise.
pub fn finish_delete(result: Result<u64, String>) -> (r: Result<(), ApiError>)
    ensures
        result is Ok <==> r is Ok,
        result matches Err(m) ==> r matches Err(ApiError::StoreError(e)) && e@ == m@,
{
    match result {
        Ok(_) => Ok(()),
        Err(m) => Err(ApiError::StoreError(m)),
    }
}

/// A note just created over a non-empty range is listed, with its text, id
/// and timing, when that exact range is queried, whatever the store held
/// before.
pub proof fn lemma_created_note_is_listed(
    stored: Seq<NoteView>,
    text: Seq<char>,
    range: TimeRange,
    clock: int,
    width: int,
)
    requires
        range.start < range.end,
        width > 0,
    ensures
        compressed(
            range,
            overlapping(stored.push(created_note(text, Timing::Range(range), clock)), range),
            width,
        ).contains(existing_of(created_note(text, Timing::Range(range), clock))),
{
    let note = created_note(text, Timing::Range(range), clock);
    let all = stored.push(note);
    let f = |n: NoteView| n.timing.overlaps_spec(range);
    assert(f(all[stored.len() as int]));
    all.lemma_filter_contains(f, stored.len() as int);
    let shown = overlapping(all, range);
    assert(shown =~= all.filter(f));
    let k = choose|k: int| 0 <= k < shown.len() && shown[k] == note;
    let c = compressed(range, shown, width);
    assert(c[k] == existing_of(note));
}

/// Decimal digits never begin with a minus sign, and a number of two or
/// more digits is written with at least two characters.
proof fn lemma_digits_shape(n: nat)
    ensures
        digits_of(n).len() >= 1,
        digits_of(n)[0] != '-',
        n >= 10 ==> digits_of(n).len() >= 2,
    decreases n,
{
    if n >= 10 {
        lemma_digits_shape(n / 10);
    }
}

proof fn lemma_digits_injective(a: nat, b: nat)
    requires
        digits_of(a) == digits_of(b),
    ensures
        a == b,
    decreases a,
{
    lemma_digits_shape(a);
    lemma_digits_shape(b);
    if a >= 10 && b >= 10 {
        let da = digits_of(a);
        assert(da.last() == digit_char((a % 10) as int));
        assert(digits_of(b).last() == digit_char((b % 10) as int));
        assert(digits_of(a / 10) =~= da.drop_last());
        assert(digits_of(b / 10) =~= digits_of(b).drop_last());
        lemma_digits_injective(a / 10, b / 10);
    } else if a < 10 && b < 10 {
        assert(digits_of(a)[0] == digit_char(a as int));
    }
}

/// Two numbers with the same decimal form are equal.
pub proof fn lemma_decimal_injective(a: int, b: int)
    requires
        decimal_of(a) == decimal_of(b),
    ensures
        a == b,
{
    if a < 0 && b < 0 {
        assert(digits_of((-a) as nat) =~= decimal_of(a).drop_first());
        assert(digits_of((-b) as nat) =~= decimal_of(b).drop_first());
        lemma_digits_injective((-a) as nat, (-b) as nat);
    } else if a >= 0 && b >= 0 {
        lemma_digits_injective(a as nat, b as nat);
    } else if a < 0 {
        lemma_digits_shape(b as nat);
        assert(decimal_of(a)[0] == '-');
    } else {
        lemma_digits_shape(a as nat);
        assert(decimal_of(b)[0] == '-');
    }
}

/// When every stored note's id is the decimal form of a reading no later
/// than `last`, a note created with a reading after `last` has an id that no
/// stored note has.
pub proof fn lemma_later_reading_gives_fresh_id(
    stored: Seq<NoteView>,
    readings: Seq<int>,
    last: int,
    text: Seq<char>,
    timing: Timing,
    reading: int,
)
    requires
        stored.len() == readings.len(),
        forall|i: int|
            0 <= i < stored.len() ==> #[trigger] stored[i].id == decimal_of(readings[i])
                && readings[i] <= last,
        reading > last,
    ensures
        forall|i: int|
            0 <= i < stored.len() ==> #[trigger] stored[i].id != created_note(
                text,
                timing,
                reading,
            ).id,
{
    assert forall|i: int| 0 <= i < stored.len() implies #[trigger] stored[i].id != created_note(
        text,
        timing,
        reading,
    ).id by {
        if stored[i].id == decimal_of(reading) {
            lemma_decimal_injective(readings[i], reading);
        }
    }
}

} // verus!
