//! What the fetcher decides: the kind of content fetched, the backoff
//! between attempts, the user agent, and whether a response counts.
use vstd::prelude::*;
use crate::text::chars_of;
use crate::coupon::EngineConfig;

verus! {

/// The kind of a fetched payload.
#[derive(Clone, Copy, Debug, PartialEq, Eq, Structural)]
pub enum ContentType {
    Html,
    Json,
    Csv,
    Unknown,
}

/// What `str::trim_start` gives for `s`.
pub uninterp spec fn trim_start_of(s: Seq<char>) -> Seq<char>;

/// Relies on `str::trim_start`: the result depends on the characters alone.
#[verifier::external_body]
fn trim_start(s: &str) -> (r: String)
    ensures
        r@ == trim_start_of(s@),
{
    s.trim_start().to_string()
}

/// `s` is where a line of `t` begins.
pub open spec fn line_start(t: Seq<char>, s: int) -> bool {
    0 <= s <= t.len() && (s == 0 || t[s - 1] == '\n')
}

/// The line that begins at `s` holds a comma.
pub open spec fn comma_in_line(t: Seq<char>, s: int) -> bool {
    exists|k: int| s <= k < t.len() && t[k] == ',' && forall|m: int| s <= m < k ==> #[trigger] t[m] != '\n'
}

/// Every line holds a comma (an empty text, or an empty last piece after a
/// final newline, holds no line).
pub open spec fn every_line_has_comma(t: Seq<char>) -> bool {
    forall|s: int| #[trigger] line_start(t, s) && s < t.len() ==> comma_in_line(t, s)
}

/// JSON when the text opens with `{` or `[`, HTML with `<`, CSV when it
/// holds a tab or every line a comma.
pub open spec fn classify(t: Seq<char>) -> ContentType {
    if t.len() > 0 && (t[0] == '{' || t[0] == '[') {
        ContentType::Json
    } else if t.len() > 0 && t[0] == '<' {
        ContentType::Html
    } else if t.contains('\t') || every_line_has_comma(t) {
        ContentType::Csv
    } else {
        ContentType::Unknown
    }
}

fn every_line_has_comma_exec(t: &Vec<char>) -> (r: bool)
    ensures
        r == every_line_has_comma(t@),
{
    let n = t.len();
    let mut s: usize = 0;
    loop
        invariant
            n == t@.len(),
            s <= n,
            line_start(t@, s as int),
            forall|x: int| 0 <= x < s && #[trigger] line_start(t@, x) ==> comma_in_line(t@, x),
        decreases n - s,
    {
        if s == n {
            return true;
        }
        let mut k = s;
        let mut seen_comma = false;
        while k < n && t[k] != '\n'
            invariant
                n == t@.len(),
                s <= k <= n,
                forall|m: int| s <= m < k ==> #[trigger] t@[m] != '\n',
                seen_comma == exists|c: int| s <= c < k && t@[c] == ',',
            decreases n - k,
        {
            if t[k] == ',' {
                seen_comma = true;
            }
            k += 1;
        }
        if !seen_comma {
            proof {
                if comma_in_line(t@, s as int) {
                    let c = choose|c: int| s <= c < t@.len() && t@[c] == ',' && forall|m: int| s <= m < c ==> #[trigger] t@[m] != '\n';
                    if c >= k {
                        assert(t@[k as int] != '\n');
                    }
                }
            }
            return false;
        }
        proof {
            let c = choose|c: int| s <= c < k && t@[c] == ',';
            assert forall|m: int| s <= m < c implies #[trigger] t@[m] != '\n' by {}
            assert(comma_in_line(t@, s as int));
            assert forall|x: int| 0 <= x <= k && #[trigger] line_start(t@, x) implies x <= s || x == k + 1 by {
                if x > s && x <= k {
                    assert(t@[x - 1] != '\n');
                }
            }
        }
        if k == n {
            return true;
        }
        s = k + 1;
    }
}

/// The kind of an already trimmed payload (see `classify`).
pub fn classify_text(trimmed: &str) -> (r: ContentType)
    ensures
        r == classify(trimmed@),
{
    let t = chars_of(trimmed);
    if t.len() > 0 && (t[0] == '{' || t[0] == '[') {
        return ContentType::Json;
    }
    if t.len() > 0 && t[0] == '<' {
        return ContentType::Html;
    }
    let mut i: usize = 0;
    while i < t.len()
        invariant
            i <= t@.len(),
            t@ == trimmed@,
            !(t@.len() > 0 && (t@[0] == '{' || t@[0] == '[' || t@[0] == '<')),
            forall|m: int| 0 <= m < i ==> t@[m] != '\t',
        decreases t@.len() - i,
    {
        if t[i] == '\t' {
            assert(t@.contains('\t'));
            return ContentType::Csv;
        }
        i += 1;
    }
    if every_line_has_comma_exec(&t) {
        ContentType::Csv
    } else {
        ContentType::Unknown
    }
}

/// The kind of a payload, judged on its text after leading white space.
pub fn detect_content_type(content: &str) -> (r: ContentType)
    ensures
        r == classify(trim_start_of(content@)),
{
    let trimmed = trim_start(content);
    classify_text(trimmed.as_str())
}

pub open spec fn pow2(n: nat) -> nat
    decreases n,
{
    if n == 0 {
        1
    } else {
        2 * pow2((n - 1) as nat)
    }
}

/// Why a fetch attempt failed.
#[derive(Clone, Copy, Debug, PartialEq, Eq, Structural)]
pub enum FetchError {
    /// The server answered with a status outside 200..=299.
    HttpStatus(u16),
    /// The server answered with an empty body.
    EmptyBody,
    /// The request did not complete.
    Transport,
    /// No attempt was made.
    NoAttempts,
}

/// Decides how fetches are made; the requests themselves are the caller's.
pub struct Scraper {
    pub config: EngineConfig,
    pub user_agents: Vec<String>,
}

impl Scraper {
    pub fn new(config: EngineConfig) -> (r: Self)
        ensures
            r.config == config,
            r.user_agents@.len() == 4,
    {
        let user_agents = vec![
            "Mozilla/5.0 (Windows NT 10.0; Win64; x64) AppleWebKit/537.36 (KHTML, like Gecko) Chrome/121.0.0.0 Safari/537.36".to_string(),
            "Mozilla/5.0 (Macintosh; Intel Mac OS X 10_15_7) AppleWebKit/537.36 (KHTML, like Gecko) Chrome/121.0.0.0 Safari/537.36".to_string(),
            "Mozilla/5.0 (X11; Linux x86_64) AppleWebKit/537.36 (KHTML, like Gecko) Chrome/121.0.0.0 Safari/537.36".to_string(),
            "Mozilla/5.0 (Windows NT 10.0; Win64; x64; rv:121.0) Gecko/20100101 Firefox/121.0".to_string(),
        ];
        Scraper { config, user_agents }
    }

    /// The header pairs sent with every request, in order.
    pub fn default_headers() -> (r: Vec<(String, String)>)
        ensures
            r@.len() == 6,
            r@[0].0@ == "Accept"@ && r@[0].1@ == "text/html,application/xhtml+xml,application/xml;q=0.9,image/webp,*/*;q=0.8"@,
            r@[1].0@ == "Accept-Language"@ && r@[1].1@ == "en-US,en;q=0.9"@,
            r@[2].0@ == "Accept-Encoding"@ && r@[2].1@ == "gzip, deflate, br"@,
            r@[3].0@ == "DNT"@ && r@[3].1@ == "1"@,
            r@[4].0@ == "Connection"@ && r@[4].1@ == "keep-alive"@,
            r@[5].0@ == "Upgrade-Insecure-Requests"@ && r@[5].1@ == "1"@,
    {
        proof {
            reveal_strlit("Accept");
            reveal_strlit("text/html,application/xhtml+xml,application/xml;q=0.9,image/webp,*/*;q=0.8");
            reveal_strlit("Accept-Language");
            reveal_strlit("en-US,en;q=0.9");
            reveal_strlit("Accept-Encoding");
            reveal_strlit("gzip, deflate, br");
            reveal_strlit("DNT");
            reveal_strlit("1");
            reveal_strlit("Connection");
            reveal_strlit("keep-alive");
            reveal_strlit("Upgrade-Insecure-Requests");
            reveal_strlit("1");
        }
        let mut r: Vec<(String, String)> = Vec::new();
        r.push(("Accept".to_string(), "text/html,application/xhtml+xml,application/xml;q=0.9,image/webp,*/*;q=0.8".to_string()));
        r.push(("Accept-Language".to_string(), "en-US,en;q=0.9".to_string()));
        r.push(("Accept-Encoding".to_string(), "gzip, deflate, br".to_string()));
        r.push(("DNT".to_string(), "1".to_string()));
        r.push(("Connection".to_string(), "keep-alive".to_string()));
        r.push(("Upgrade-Insecure-Requests".to_string(), "1".to_string()));
        r
    }

    /// The pause before attempt `attempt` (counted from 0): none before the
    /// first, `1000 * 2^attempt` milliseconds before the others (capped at
    /// `u64::MAX`).
    pub fn backoff_delay_ms(attempt: u32) -> (r: Option<u64>)
        ensures
            r == backoff_spec(attempt),
            attempt == 0 ==> r is None,
            attempt > 0 ==> r == Some(
                if 1000 * pow2(attempt as nat) <= u64::MAX {
                    (1000 * pow2(attempt as nat)) as u64
                } else {
                    u64::MAX
                },
            ),
    {
        if attempt == 0 {
            return None;
        }
        let mut d: u64 = 1000;
        let mut k: u32 = 0;
        let mut capped = false;
        while k < attempt
            invariant
                k <= attempt,
                !capped ==> d == 1000 * pow2(k as nat),
                capped ==> 1000 * pow2(k as nat) > u64::MAX && d == u64::MAX,
            decreases attempt - k,
        {
            if capped || d > u64::MAX / 2 {
                capped = true;
                d = u64::MAX;
            } else {
                d = d * 2;
            }
            k += 1;
        }
        Some(d)
    }

    /// The user agent of an attempt: the one at `random_index` (modulo the
    /// list) when rotation is on, else the first.
    pub fn select_user_agent(&self, random_index: usize) -> (r: String)
        requires
            self.user_agents@.len() > 0,
        ensures
            self.config.user_agent_rotation ==> r@ == self.user_agents@[(random_index as int) % (self.user_agents@.len() as int)]@,
            !self.config.user_agent_rotation ==> r@ == self.user_agents@[0]@,
    {
        if self.config.user_agent_rotation {
            self.user_agents[random_index % self.user_agents.len()].clone()
        } else {
            self.user_agents[0].clone()
        }
    }

    /// A response counts when its status is in 200..=299 and its body is
    /// not empty.
    pub fn check_response(status: u16, body: String) -> (r: Result<String, FetchError>)
        ensures
            !(200 <= status <= 299) ==> r == Err::<String, FetchError>(FetchError::HttpStatus(status)),
            200 <= status <= 299 && body@.len() == 0 ==> r == Err::<String, FetchError>(FetchError::EmptyBody),
            200 <= status <= 299 && body@.len() > 0 ==> r == Ok::<String, FetchError>(body),
    {
        if status < 200 || status > 299 {
            return Err(FetchError::HttpStatus(status));
        }
        if body.as_str().is_empty() {
            return Err(FetchError::EmptyBody);
        }
        Ok(body)
    }
}

/// What the fetch loop does next.
#[derive(Debug)]
pub enum FetchAction {
    /// Make an attempt, after sleeping this many milliseconds if any.
    Attempt { delay_ms: Option<u64> },
    /// Stop with this result.
    Finish(Result<String, FetchError>),
}

/// How an attempt through a proxy reflects on it: a response with a status
/// in 200..=299 is a success, no response is a failure, anything else
/// neither.
#[derive(Clone, Copy, Debug, PartialEq, Eq, Structural)]
pub enum ProxyReport {
    Success,
    Failure,
    Neither,
}

/// Progress of one fetch: attempts made so far.
#[derive(Clone, Copy, Debug)]
pub struct FetchState {
    pub attempts: u32,
}

pub open spec fn backoff_spec(attempt: u32) -> Option<u64> {
    if attempt == 0 {
        None
    } else if 1000 * pow2(attempt as nat) <= u64::MAX {
        Some((1000 * pow2(attempt as nat)) as u64)
    } else {
        Some(u64::MAX)
    }
}

impl Scraper {
    /// Starts a fetch: a first attempt without delay, or no attempt at all
    /// when `retry_attempts` is zero.
    pub fn begin_fetch(&self) -> (r: (FetchState, FetchAction))
        ensures
            r.0.attempts == 0,
            self.config.retry_attempts == 0 ==> (r.1 == FetchAction::Finish(Err(FetchError::NoAttempts))),
            self.config.retry_attempts > 0 ==> (r.1 == FetchAction::Attempt { delay_ms: None }),
    {
        if self.config.retry_attempts == 0 {
            (FetchState { attempts: 0 }, FetchAction::Finish(Err(FetchError::NoAttempts)))
        } else {
            (FetchState { attempts: 0 }, FetchAction::Attempt { delay_ms: None })
        }
    }

    /// After an attempt: stop on success; on failure retry with the
    /// exponential backoff while attempts remain, else stop with this
    /// (the last) error.
    pub fn after_attempt(&self, state: &mut FetchState, outcome: Result<String, FetchError>) -> (r: FetchAction)
        requires
            old(state).attempts < self.config.retry_attempts,
        ensures
            final(state).attempts == old(state).attempts + 1,
            outcome is Ok ==> (r == FetchAction::Finish(outcome)),
            outcome is Err && final(state).attempts >= self.config.retry_attempts ==> (r == FetchAction::Finish(outcome)),
            outcome is Err && final(state).attempts < self.config.retry_attempts ==> (r == FetchAction::Attempt {
                delay_ms: backoff_spec(final(state).attempts),
            }),
    {
        state.attempts = state.attempts + 1;
        match outcome {
            Ok(content) => FetchAction::Finish(Ok(content)),
            Err(e) => {
                if state.attempts >= self.config.retry_attempts {
                    FetchAction::Finish(Err(e))
                } else {
                    FetchAction::Attempt { delay_ms: Self::backoff_delay_ms(state.attempts) }
                }
            },
        }
    }

    /// How an attempt through a proxy reflects on it (see `ProxyReport`);
    /// `status` is `None` when no response came.
    pub fn proxy_report(status: Option<u16>) -> (r: ProxyReport)
        ensures
            status is None ==> r == ProxyReport::Failure,
            status is Some && 200 <= status->0 <= 299 ==> r == ProxyReport::Success,
            status is Some && !(200 <= status->0 <= 299) ==> r == ProxyReport::Neither,
    {
        match status {
            None => ProxyReport::Failure,
            Some(s) => if 200 <= s && s <= 299 {
                ProxyReport::Success
            } else {
                ProxyReport::Neither
            },
        }
    }
}

} // verus!
