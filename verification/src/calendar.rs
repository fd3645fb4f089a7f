//! Google Calendar rules: which calendars the coach may edit, access-token
//! lifetimes, the OAuth redirect, and paging through event changes.
use vstd::prelude::*;
use vstd::string::StringSliceAdditionalSpecFns;
use crate::encoding::{
    base64_len, base64_url_no_pad, encode_base64_url_no_pad, sha256, sha256_digest,
};
use crate::text::{
    append_str, chars_of, split_by, split_chars, string_of, text_equals, views, Separator,
};

verus! {

// ---------------------------------------------------------------------------
// Calendar authorization
// ---------------------------------------------------------------------------

/// The `(selected, auto_edit)` flags stored for a calendar when the user
/// asks for `selected` and `auto_edit`: the coach's own calendar always
/// stays selected and editable.
pub open spec fn stored_flags(selected: bool, auto_edit: bool, is_coach_calendar: bool) -> (
    bool,
    bool,
) {
    (selected || is_coach_calendar, auto_edit || is_coach_calendar)
}

/// Whether study blocks may be written into a calendar with the stored flags
/// `binding` (none for an unknown calendar).
pub open spec fn schedulable(binding: Option<(bool, bool)>) -> bool {
    binding matches Some((selected, auto_edit)) && selected && auto_edit
}

/// The flags to store when the user sets a calendar's selection and
/// auto-edit switches.
pub fn binding_flags(selected: bool, auto_edit: bool, is_coach_calendar: bool) -> (r: (bool, bool))
    ensures
        r == stored_flags(selected, auto_edit, is_coach_calendar),
{
    (selected || is_coach_calendar, auto_edit || is_coach_calendar)
}

/// Study blocks may be written only into a known calendar that is both
/// selected and open to automatic edits.
pub fn may_schedule(binding: Option<(bool, bool)>) -> (r: bool)
    ensures
        r == schedulable(binding),
{
    match binding {
        Some((selected, auto_edit)) => selected && auto_edit,
        None => false,
    }
}

/// Whatever switches the user sets, the coach's own calendar can always
/// receive study blocks.
pub proof fn coach_calendar_is_always_schedulable(selected: bool, auto_edit: bool)
    ensures
        schedulable(Some(stored_flags(selected, auto_edit, true))),
{
}

/// Switching a calendar on in both switches makes it schedulable.
pub proof fn enabled_calendar_is_schedulable(is_coach_calendar: bool)
    ensures
        schedulable(Some(stored_flags(true, true, is_coach_calendar))),
{
}

/// The name of the calendar that the coach creates for its study blocks.
pub const COACH_CALENDAR_NAME: &'static str = "IB 45 Coach";

/// The name shown for a calendar: its summary, or "Untitled calendar".
pub fn calendar_name(summary: Option<String>) -> (r: String)
    ensures
        match summary {
            Some(s) => r == s,
            None => r@ == "Untitled calendar"@,
        },
{
    match summary {
        Some(s) => s,
        None => string_of(&chars_of("Untitled calendar")),
    }
}

/// A calendar is the coach's own when it carries the coach's name.
pub fn is_coach_calendar_name(name: &str) -> (r: bool)
    ensures
        r == (name@ == COACH_CALENDAR_NAME@),
{
    text_equals(name, COACH_CALENDAR_NAME)
}

/// The identifier given to a new study-block event: "ib45" followed by a
/// fresh identifier's hexadecimal digits.
pub fn study_block_event_id(fresh_hex: &str) -> (r: String)
    ensures
        r@ == "ib45"@ + fresh_hex@,
{
    let mut v: Vec<char> = Vec::new();
    append_str(&mut v, "ib45");
    append_str(&mut v, fresh_hex);
    string_of(&v)
}

// ---------------------------------------------------------------------------
// Access tokens
// ---------------------------------------------------------------------------

/// Lifetime assumed when the provider does not say, in seconds.
pub const DEFAULT_TOKEN_LIFETIME: i64 = 3600;

/// When a token received at `now` (seconds) expires: its stated lifetime,
/// or one hour, less a minute of margin.
pub fn token_expires_at(now: i64, expires_in: Option<i64>) -> (r: i64)
    requires
        i64::MIN <= now + match expires_in {
            Some(e) => e as int,
            None => 3600,
        } - 60 <= i64::MAX,
        i64::MIN <= now + match expires_in {
            Some(e) => e as int,
            None => 3600,
        } <= i64::MAX,
    ensures
        r == now + match expires_in {
            Some(e) => e as int,
            None => 3600,
        } - 60,
{
    let lifetime = match expires_in {
        Some(e) => e,
        None => DEFAULT_TOKEN_LIFETIME,
    };
    now + lifetime - 60
}

/// A token is used as it is while it has more than 30 seconds left.
pub fn token_is_fresh(expires_at: i64, now: i64) -> (r: bool)
    requires
        now + 30 <= i64::MAX,
    ensures
        r == (expires_at > now + 30),
{
    expires_at > now + 30
}

// ---------------------------------------------------------------------------
// Paging through calendar events
// ---------------------------------------------------------------------------

/// Progress of reading one calendar's events: from the stored sync token
/// when there is one, otherwise (or after the provider has expired it) over
/// the full time window.
pub struct EventSync {
    /// The sync token stored from the previous run.
    pub stored_sync_token: Option<String>,
    /// The page to ask for next.
    pub page_token: Option<String>,
    /// The newest sync token the provider has handed out in this run.
    pub final_sync_token: Option<String>,
    /// A full read was restarted after the stored token expired.
    pub retried_full: bool,
}

/// What to ask the provider for next.
pub struct PageRequest {
    pub page_token: Option<String>,
    /// Send this sync token (incremental read).
    pub sync_token: Option<String>,
    /// Limit the read to the window from 30 days back to 180 days ahead.
    pub full_window: bool,
}

/// What to do with the provider's answer to a page request.
pub enum SyncStep {
    /// The stored token expired: clear it and read everything again.
    RestartFull,
    /// The request failed.
    Failed,
    /// Store the page's events and ask for the next page.
    StoreAndContinue,
    /// Store the page's events; the read is complete.
    StoreAndFinish,
}

pub open spec fn opt_view(o: Option<String>) -> Option<Seq<char>> {
    match o {
        Some(s) => Some(s@),
        None => None,
    }
}

fn copy_opt(o: &Option<String>) -> (r: Option<String>)
    ensures
        r == *o,
{
    match o {
        Some(s) => Some(s.clone()),
        None => None,
    }
}

impl EventSync {
    /// Starts reading a calendar whose stored sync token is `stored_sync_token`.
    pub fn new(stored_sync_token: Option<String>) -> (r: EventSync)
        ensures
            r.stored_sync_token == stored_sync_token,
            r.page_token is None,
            r.final_sync_token is None,
            !r.retried_full,
    {
        EventSync { stored_sync_token, page_token: None, final_sync_token: None, retried_full: false }
    }

    /// The next page request: the current page token, the stored sync token
    /// unless the read was restarted, and the full time window when there is
    /// no usable sync token.
    pub fn next_request(&self) -> (r: PageRequest)
        ensures
            r.page_token == self.page_token,
            r.sync_token == if self.retried_full {
                None
            } else {
                self.stored_sync_token
            },
            r.full_window == (self.stored_sync_token is None || self.retried_full),
    {
        PageRequest {
            page_token: copy_opt(&self.page_token),
            sync_token: if self.retried_full {
                None
            } else {
                copy_opt(&self.stored_sync_token)
            },
            full_window: self.stored_sync_token.is_none() || self.retried_full,
        }
    }

    /// Takes in the provider's answer: `gone` for HTTP 410 (expired sync
    /// token), `success` for a 2xx status, and the page's next page and sync
    /// tokens.
    pub fn on_response(
        &mut self,
        gone: bool,
        success: bool,
        next_page: Option<String>,
        next_sync: Option<String>,
    ) -> (step: SyncStep)
        ensures
            step == step_of(old(self).retried_full, gone, success, next_page is Some),
            *final(self) == after_response(*old(self), gone, success, next_page, next_sync),
    {
        if gone && !self.retried_full {
            self.retried_full = true;
            self.page_token = None;
            return SyncStep::RestartFull;
        }
        if !success {
            return SyncStep::Failed;
        }
        let more = next_page.is_some();
        self.page_token = next_page;
        if next_sync.is_some() {
            self.final_sync_token = next_sync;
        }
        if more {
            SyncStep::StoreAndContinue
        } else {
            SyncStep::StoreAndFinish
        }
    }
}

/// The step taken for an answer: an expired token restarts a read that has
/// not restarted yet; otherwise a failed status fails, and a successful page
/// is stored, continuing while the provider names a next page.
pub open spec fn step_of(retried_full: bool, gone: bool, success: bool, has_next_page: bool) -> SyncStep {
    if gone && !retried_full {
        SyncStep::RestartFull
    } else if !success {
        SyncStep::Failed
    } else if has_next_page {
        SyncStep::StoreAndContinue
    } else {
        SyncStep::StoreAndFinish
    }
}

/// The read's progress after an answer: a restart forgets the page token; a
/// successful page moves to the next page and keeps the newest sync token.
pub open spec fn after_response(
    s: EventSync,
    gone: bool,
    success: bool,
    next_page: Option<String>,
    next_sync: Option<String>,
) -> EventSync {
    if gone && !s.retried_full {
        EventSync { retried_full: true, page_token: None, ..s }
    } else if !success {
        s
    } else {
        EventSync {
            page_token: next_page,
            final_sync_token: if next_sync is Some {
                next_sync
            } else {
                s.final_sync_token
            },
            ..s
        }
    }
}

/// A read restarts at most once: after a restart, no answer restarts it
/// again, whatever comes back.
pub proof fn event_sync_restarts_at_most_once(
    s: EventSync,
    gone: bool,
    success: bool,
    next_page: Option<String>,
    next_sync: Option<String>,
    later_gone: bool,
    later_success: bool,
    later_has_next_page: bool,
)
    requires
        step_of(s.retried_full, gone, success, next_page is Some) is RestartFull,
    ensures
        !(step_of(
            after_response(s, gone, success, next_page, next_sync).retried_full,
            later_gone,
            later_success,
            later_has_next_page,
        ) is RestartFull),
{
}

/// Once restarted, a read stays restarted: every later answer keeps it on
/// the full time window without the stored sync token.
pub proof fn restarted_read_stays_full(
    s: EventSync,
    gone: bool,
    success: bool,
    next_page: Option<String>,
    next_sync: Option<String>,
)
    requires
        s.retried_full,
    ensures
        after_response(s, gone, success, next_page, next_sync).retried_full,
        after_response(s, gone, success, next_page, next_sync).stored_sync_token
            == s.stored_sync_token,
{
}

/// A calendar event as it is stored.
pub struct EventRow {
    pub summary: String,
    pub start_at: Option<String>,
    pub end_at: Option<String>,
    pub has_attendees: bool,
    pub status: String,
}

/// An event's start or end as the provider gives it: its `dateTime` field
/// when that is present (`None` inside when it is not text), else its `date`.
pub open spec fn event_time_of(date_time: Option<Option<String>>, date: Option<String>) -> Option<
    String,
> {
    match date_time {
        Some(t) => t,
        None => date,
    }
}

fn event_time(date_time: Option<Option<String>>, date: Option<String>) -> (r: Option<String>)
    ensures
        r == event_time_of(date_time, date),
{
    match date_time {
        Some(t) => t,
        None => date,
    }
}

/// The row stored for an event: its summary or "Busy", its start and end,
/// whether it lists any attendee (`attendee_count` is the length of its
/// attendee list, if it has one), and its status or "confirmed".
pub fn event_row(
    summary: Option<String>,
    start_date_time: Option<Option<String>>,
    start_date: Option<String>,
    end_date_time: Option<Option<String>>,
    end_date: Option<String>,
    attendee_count: Option<usize>,
    status: Option<String>,
) -> (r: EventRow)
    ensures
        match summary {
            Some(s) => r.summary == s,
            None => r.summary@ == "Busy"@,
        },
        r.start_at == event_time_of(start_date_time, start_date),
        r.end_at == event_time_of(end_date_time, end_date),
        r.has_attendees == (attendee_count matches Some(n) && n > 0),
        match status {
            Some(s) => r.status == s,
            None => r.status@ == "confirmed"@,
        },
{
    EventRow {
        summary: match summary {
            Some(s) => s,
            None => string_of(&chars_of("Busy")),
        },
        start_at: event_time(start_date_time, start_date),
        end_at: event_time(end_date_time, end_date),
        has_attendees: match attendee_count {
            Some(n) => n > 0,
            None => false,
        },
        status: match status {
            Some(s) => s,
            None => string_of(&chars_of("confirmed")),
        },
    }
}

// ---------------------------------------------------------------------------
// OAuth redirect
// ---------------------------------------------------------------------------

/// The first line of `s` as `str::lines` yields it: up to the first `\n`,
/// without a `\r` just before it; none for an empty text.
pub open spec fn first_line(s: Seq<char>) -> Option<Seq<char>> {
    if s.len() == 0 {
        None
    } else {
        let k = first_index_of(s, '\n');
        if k < 0 {
            Some(s)
        } else if k > 0 && s[k - 1] == '\r' {
            Some(s.subrange(0, k - 1))
        } else {
            Some(s.subrange(0, k))
        }
    }
}

/// Index of the first `c` in `s`, or -1.
pub open spec fn first_index_of(s: Seq<char>, c: char) -> int
    decreases s.len(),
{
    if s.len() == 0 {
        -1
    } else if s.last() == c && first_index_of(s.drop_last(), c) < 0 {
        s.len() - 1
    } else {
        first_index_of(s.drop_last(), c)
    }
}

pub open spec fn nonempty_word() -> spec_fn(Seq<char>) -> bool {
    |w: Seq<char>| w.len() > 0
}

/// The target of an HTTP request: the second white-space separated word of
/// its first line.
pub open spec fn request_target_of(request: Seq<char>) -> Option<Seq<char>> {
    match first_line(request) {
        Some(line) => {
            let words = split_by(line, Separator::WhiteSpace).filter(nonempty_word());
            if words.len() > 1 {
                Some(words[1])
            } else {
                None
            }
        },
        None => None,
    }
}

fn first_newline(s: &Vec<char>) -> (r: Option<usize>)
    ensures
        match r {
            Some(k) => first_index_of(s@, '\n') == k && k < s@.len() && s@[k as int] == '\n',
            None => first_index_of(s@, '\n') == -1,
        },
{
    let mut i: usize = 0;
    while i < s.len()
        invariant
            i <= s.len(),
            forall|k: int| 0 <= k < i ==> s@[k] != '\n',
        decreases s.len() - i,
    {
        if s[i] == '\n' {
            proof {
                lemma_first_index(s@, '\n', i as int);
            }
            return Some(i);
        }
        i += 1;
    }
    proof {
        lemma_first_index_none(s@, '\n');
    }
    None
}

proof fn lemma_first_index(s: Seq<char>, c: char, i: int)
    requires
        0 <= i < s.len(),
        s[i] == c,
        forall|k: int| 0 <= k < i ==> s[k] != c,
    ensures
        first_index_of(s, c) == i,
    decreases s.len(),
{
    if i < s.len() - 1 {
        lemma_first_index(s.drop_last(), c, i);
    } else {
        lemma_first_index_none(s.drop_last(), c);
    }
}

proof fn lemma_first_index_none(s: Seq<char>, c: char)
    requires
        forall|k: int| 0 <= k < s.len() ==> s[k] != c,
    ensures
        first_index_of(s, c) == -1,
    decreases s.len(),
{
    if s.len() > 0 {
        lemma_first_index_none(s.drop_last(), c);
    }
}

/// The target of the HTTP request that the browser sent to the redirect
/// listener.
pub fn request_target(request: &str) -> (r: Option<String>)
    ensures
        opt_view(r) == request_target_of(request@),
{
    let s = chars_of(request);
    if s.len() == 0 {
        return None;
    }
    let end = match first_newline(&s) {
        Some(k) => if k > 0 && s[k - 1] == '\r' {
            k - 1
        } else {
            k
        },
        None => s.len(),
    };
    let mut line: Vec<char> = Vec::new();
    for i in 0..end
        invariant
            end <= s.len(),
            line@ == s@.subrange(0, i as int),
    {
        line.push(s[i]);
        assert(s@.subrange(0, i + 1) == s@.subrange(0, i as int).push(s@[i as int]));
    }
    assert(first_line(s@) == Some(line@));
    let pieces = split_chars(&line, &Separator::WhiteSpace);
    let mut seen: usize = 0;
    let mut i: usize = 0;
    proof {
        reveal(Seq::filter);
        assert(views(pieces@.take(0)) =~= Seq::<Seq<char>>::empty());
    }
    while i < pieces.len()
        invariant
            i <= pieces.len(),
            views(pieces@) == split_by(line@, Separator::WhiteSpace),
            first_line(request@) == Some(line@),
            seen == views(pieces@.take(i as int)).filter(nonempty_word()).len(),
            seen <= 1,
        decreases pieces.len() - i,
    {
        let ghost before = views(pieces@.take(i as int));
        let ghost w = pieces@[i as int]@;
        assert(views(pieces@.take(i + 1)) == before.push(w));
        proof {
            before.lemma_filter_push(w, nonempty_word());
        }
        if pieces[i].len() > 0 {
            if seen == 1 {
                let ghost all = views(pieces@);
                assert(all == views(pieces@.take(i + 1)) + all.skip(i + 1));
                proof {
                    Seq::filter_distributes_over_add(
                        views(pieces@.take(i + 1)),
                        all.skip(i + 1),
                        nonempty_word(),
                    );
                    assert(views(pieces@.take(i + 1)) + all.skip(i + 1) =~= all);
                }
                assert(before.push(w).filter(nonempty_word())[1] == w);
                return Some(string_of(&pieces[i]));
            }
            seen = 1;
        }
        i += 1;
    }
    assert(pieces@.take(pieces.len() as int) == pieces@);
    None
}

/// The query parameters of `url`, in order, as `url::Url::parse` followed by
/// `Url::query_pairs` decodes them; `None` when the URL does not parse.
pub uninterp spec fn url_query_pairs(url: Seq<char>) -> Option<Seq<(Seq<char>, Seq<char>)>>;

pub open spec fn pairs_view(pairs: Seq<(String, String)>) -> Seq<(Seq<char>, Seq<char>)> {
    pairs.map_values(|p: (String, String)| (p.0@, p.1@))
}

#[verifier::external_type_specification]
#[verifier::external_body]
pub struct ExUrlParseError(url::ParseError);

/// Parses `url` with `url::Url::parse` and collects its decoded query
/// parameters; the contract names the decoded pairs, since URL parsing and
/// percent-decoding are not restated here.
#[verifier::external_body]
fn query_pairs(url: &str) -> (r: Result<Vec<(String, String)>, url::ParseError>)
    ensures
        match r {
            Ok(pairs) => url_query_pairs(url@) == Some(pairs_view(pairs@)),
            Err(_) => url_query_pairs(url@) is None,
        },
{
    let parsed = url::Url::parse(url)?;
    Ok(parsed.query_pairs().map(|(k, v)| (k.into_owned(), v.into_owned())).collect())
}

/// The value of the last parameter called `name` (later parameters replace
/// earlier ones).
pub open spec fn param(pairs: Seq<(Seq<char>, Seq<char>)>, name: Seq<char>) -> Option<Seq<char>>
    decreases pairs.len(),
{
    if pairs.len() == 0 {
        None
    } else if pairs.last().0 == name {
        Some(pairs.last().1)
    } else {
        param(pairs.drop_last(), name)
    }
}

fn find_param(pairs: &Vec<(String, String)>, name: &str) -> (r: Option<String>)
    ensures
        opt_view(r) == param(pairs_view(pairs@), name@),
{
    let mut i = pairs.len();
    assert(pairs@.take(i as int) =~= pairs@);
    while i > 0
        invariant
            i <= pairs.len(),
            param(pairs_view(pairs@), name@) == param(pairs_view(pairs@.take(i as int)), name@),
        decreases i,
    {
        let ghost v = pairs_view(pairs@.take(i as int));
        assert(v.last() == (pairs@[i - 1].0@, pairs@[i - 1].1@));
        assert(v.drop_last() =~= pairs_view(pairs@.take(i - 1)));
        if text_equals(pairs[i - 1].0.as_str(), name) {
            return Some(pairs[i - 1].1.clone());
        }
        i -= 1;
    }
    assert(pairs_view(pairs@.take(0)) =~= Seq::<(Seq<char>, Seq<char>)>::empty());
    None
}

/// How the authorization redirect ended.
pub enum RedirectOutcome {
    /// Google sent an authorization code.
    Authorized(String),
    /// The returned state does not match the one sent.
    StateMismatch,
    /// The user cancelled; Google's error is attached.
    Cancelled(String),
    /// Neither an error nor a code came back.
    NoCode,
}

/// Why the redirect request could not be read.
pub enum RedirectError {
    /// The request has no target.
    InvalidRequest,
    /// The target does not form a URL.
    BadUrl(url::ParseError),
}

/// The outcome for the parameters of a redirect: a state other than the one
/// sent (a missing state counts as empty) is rejected; otherwise an error
/// parameter means the user cancelled, and a code means success.
pub open spec fn redirect_outcome_of(
    pairs: Seq<(Seq<char>, Seq<char>)>,
    expected_state: Seq<char>,
    outcome: RedirectOutcome,
) -> bool {
    let state = match param(pairs, "state"@) {
        Some(s) => s,
        None => Seq::empty(),
    };
    if state != expected_state {
        outcome is StateMismatch
    } else if param(pairs, "error"@) is Some {
        outcome matches RedirectOutcome::Cancelled(e) && Some(e@) == param(pairs, "error"@)
    } else if param(pairs, "code"@) is Some {
        outcome matches RedirectOutcome::Authorized(c) && Some(c@) == param(pairs, "code"@)
    } else {
        outcome is NoCode
    }
}

/// Judges the parameters that came back with the redirect.
pub fn redirect_outcome(pairs: &Vec<(String, String)>, expected_state: &str) -> (r: RedirectOutcome)
    ensures
        redirect_outcome_of(pairs_view(pairs@), expected_state@, r),
{
    let state = match find_param(pairs, "state") {
        Some(s) => s,
        None => String::new(),
    };
    if !text_equals(state.as_str(), expected_state) {
        return RedirectOutcome::StateMismatch;
    }
    if let Some(error) = find_param(pairs, "error") {
        return RedirectOutcome::Cancelled(error);
    }
    match find_param(pairs, "code") {
        Some(code) => RedirectOutcome::Authorized(code),
        None => RedirectOutcome::NoCode,
    }
}

/// Reads the request that the browser sent to the redirect listener: its
/// target is resolved against `http://localhost` and its parameters judged.
pub fn read_redirect(request: &str, expected_state: &str) -> (r: Result<RedirectOutcome, RedirectError>)
    ensures
        match request_target_of(request@) {
            None => r matches Err(RedirectError::InvalidRequest),
            Some(target) => match url_query_pairs("http://localhost"@ + target) {
                None => r matches Err(RedirectError::BadUrl(_)),
                Some(pairs) => r matches Ok(o) && redirect_outcome_of(pairs, expected_state@, o),
            },
        },
{
    let target = match request_target(request) {
        Some(t) => t,
        None => return Err(RedirectError::InvalidRequest),
    };
    let mut url: Vec<char> = Vec::new();
    append_str(&mut url, "http://localhost");
    append_str(&mut url, target.as_str());
    let url_text = string_of(&url);
    match query_pairs(url_text.as_str()) {
        Ok(pairs) => Ok(redirect_outcome(&pairs, expected_state)),
        Err(e) => Err(RedirectError::BadUrl(e)),
    }
}

/// The page shown in the browser for an outcome; none when no code came back
/// (the listener then answers nothing).
pub fn redirect_page_text(outcome: &RedirectOutcome) -> (r: Option<&'static str>)
    ensures
        outcome is StateMismatch ==> (r matches Some(t) && t@
            == "Authorization was rejected because the security state did not match."@),
        outcome is Cancelled ==> (r matches Some(t) && t@
            == "Google Calendar connection was cancelled. You can close this tab."@),
        outcome is Authorized ==> (r matches Some(t) && t@
            == "IB 45 Coach is connected to Google Calendar. You can close this tab and return to the app."@),
        outcome is NoCode ==> r is None,
{
    match outcome {
        RedirectOutcome::StateMismatch => Some(
            "Authorization was rejected because the security state did not match.",
        ),
        RedirectOutcome::Cancelled(_) => Some(
            "Google Calendar connection was cancelled. You can close this tab.",
        ),
        RedirectOutcome::Authorized(_) => Some(
            "IB 45 Coach is connected to Google Calendar. You can close this tab and return to the app.",
        ),
        RedirectOutcome::NoCode => None,
    }
}

/// A redirect is authorized only when it carries no error and the state
/// that was sent (a missing state counting as the empty one), and then with
/// the code it carries.
pub proof fn authorized_redirects_carry_the_sent_state(
    pairs: Seq<(Seq<char>, Seq<char>)>,
    expected_state: Seq<char>,
    outcome: RedirectOutcome,
)
    requires
        redirect_outcome_of(pairs, expected_state, outcome),
        outcome is Authorized,
    ensures
        param(pairs, "state"@) == Some(expected_state) || (param(pairs, "state"@) is None
            && expected_state.len() == 0),
        param(pairs, "error"@) is None,
        outcome matches RedirectOutcome::Authorized(c) && param(pairs, "code"@) == Some(c@),
{
}

/// A redirect whose state differs from the one sent is refused as a state
/// mismatch, whatever else it carries.
pub proof fn mismatched_state_is_refused(
    pairs: Seq<(Seq<char>, Seq<char>)>,
    expected_state: Seq<char>,
    outcome: RedirectOutcome,
)
    requires
        redirect_outcome_of(pairs, expected_state, outcome),
        match param(pairs, "state"@) {
            Some(s) => s != expected_state,
            None => expected_state.len() > 0,
        },
    ensures
        outcome is StateMismatch,
{
}

// ---------------------------------------------------------------------------
// PKCE
// ---------------------------------------------------------------------------

/// The PKCE code verifier made from random bytes: their URL-safe base64.
pub fn pkce_verifier(random: &[u8]) -> (r: String)
    requires
        base64_len(random@.len(), false) <= usize::MAX,
    ensures
        r@ == base64_url_no_pad(random@),
{
    encode_base64_url_no_pad(random)
}

/// The PKCE code challenge (method S256): the URL-safe base64 of the SHA-256
/// digest of the verifier's bytes.
pub fn pkce_challenge(verifier: &str) -> (r: String)
    ensures
        r@ == base64_url_no_pad(sha256_digest(verifier.spec_bytes())),
{
    let digest = sha256(verifier.as_bytes());
    encode_base64_url_no_pad(digest.as_slice())
}

} // verus!
