//! The pull request of a branch: what GitHub's command-line tool prints about it, and the
//! state of its checks.
use vstd::prelude::*;
use serde_json::Value;
use crate::git::opt_str;
use crate::text::{opt_text, same};
use crate::theme::MUTED;

verus! {

/// serde_json's value.
#[verifier::external_type_specification]
#[verifier::external_body]
pub struct ExValue(Value);

/// serde_json's error.
#[verifier::external_type_specification]
#[verifier::external_body]
pub struct ExJsonError(serde_json::Error);

/// What `serde_json::from_slice` reads from bytes; None stands for its error.
pub uninterp spec fn json_of(bytes: Seq<u8>) -> Option<Value>;

/// What `Value::get` finds under a key.
pub uninterp spec fn json_get(v: Value, key: Seq<char>) -> Option<Value>;

/// What `Value::as_array` gives.
pub uninterp spec fn json_items(v: Value) -> Option<Seq<Value>>;

/// What `Value::as_str` gives.
pub uninterp spec fn json_text(v: Value) -> Option<Seq<char>>;

/// What `Value::as_u64` gives.
pub uninterp spec fn json_number(v: Value) -> Option<u64>;

/// What `str::to_uppercase` makes of `s`.
pub uninterp spec fn upper(s: Seq<char>) -> Seq<char>;

/// `str::to_uppercase` depends on the text alone; Unicode's case tables are not written
/// out.
pub assume_specification[ str::to_uppercase ](s: &str) -> (r: String)
    ensures
        r@ == upper(s@),
;

/// What an optional reference points at.
pub open spec fn opt_value(o: Option<&Value>) -> Option<Value> {
    match o {
        Some(v) => Some(*v),
        None => None,
    }
}

/// `serde_json::from_slice` reads one JSON value. The outcome depends on the bytes alone.
#[verifier::external_body]
fn read_json(bytes: &[u8]) -> (r: Result<Value, serde_json::Error>)
    ensures
        match r {
            Ok(v) => json_of(bytes@) == Some(v),
            Err(_) => json_of(bytes@) is None,
        },
{
    serde_json::from_slice(bytes)
}

/// `Value::get` looks up a key of an object. The outcome depends on the value and the key
/// alone.
#[verifier::external_body]
fn get_key<'a>(v: &'a Value, key: &str) -> (r: Option<&'a Value>)
    ensures
        opt_value(r) == json_get(*v, key@),
{
    v.get(key)
}

/// `Value::as_array` gives the items of an array. The outcome depends on the value alone.
#[verifier::external_body]
fn get_items(v: &Value) -> (r: Option<&Vec<Value>>)
    ensures
        match r {
            Some(a) => json_items(*v) == Some(a@),
            None => json_items(*v) is None,
        },
{
    v.as_array()
}

/// `Value::as_str` gives the text of a string. The outcome depends on the value alone.
#[verifier::external_body]
fn get_str(v: &Value) -> (r: Option<&str>)
    ensures
        opt_str(r) == json_text(*v),
{
    v.as_str()
}

/// `Value::as_u64` gives a number that is whole, not negative and small enough. The
/// outcome depends on the value alone.
#[verifier::external_body]
fn get_number(v: &Value) -> (r: Option<u64>)
    ensures
        r == json_number(*v),
{
    v.as_u64()
}

/// The state of a pull request's checks.
#[derive(Clone, Copy, Debug, PartialEq, Eq, Structural)]
pub enum PrStatus {
    Passing,
    Pending,
    Failing,
    NoChecks,
}

/// The colour that stands for a state.
pub open spec fn status_color(s: PrStatus) -> u32 {
    match s {
        PrStatus::Passing => 0x6aaf6a,
        PrStatus::Pending => 0xd9a23b,
        PrStatus::Failing => 0xe04141,
        PrStatus::NoChecks => MUTED,
    }
}

/// What is said of the checks.
pub open spec fn check_words(s: PrStatus) -> Seq<char> {
    match s {
        PrStatus::Passing => "checks passing"@,
        PrStatus::Pending => "checks running"@,
        PrStatus::Failing => "checks failing"@,
        PrStatus::NoChecks => "no checks"@,
    }
}

impl PrStatus {
    /// The colour of the dot by the link.
    pub fn color(self) -> (r: u32)
        ensures
            r == status_color(self),
    {
        match self {
            PrStatus::Passing => 0x6aaf6a,
            PrStatus::Pending => 0xd9a23b,
            PrStatus::Failing => 0xe04141,
            PrStatus::NoChecks => MUTED,
        }
    }

    /// What the dashboard says of the checks, and its colour.
    pub fn label(self) -> (r: (&'static str, u32))
        ensures
            r.0@ == check_words(self),
            r.1 == status_color(self),
    {
        match self {
            PrStatus::Passing => ("checks passing", self.color()),
            PrStatus::Pending => ("checks running", self.color()),
            PrStatus::Failing => ("checks failing", self.color()),
            PrStatus::NoChecks => ("no checks", MUTED),
        }
    }
}

/// What is reported of one check: a run has a status and a conclusion, a context has a
/// state.
#[derive(Debug)]
pub struct Check {
    pub status: Option<String>,
    pub conclusion: Option<String>,
    pub state: Option<String>,
}

/// What a check reports.
pub ghost struct CheckView {
    pub status: Option<Seq<char>>,
    pub conclusion: Option<Seq<char>>,
    pub state: Option<Seq<char>>,
}

impl View for Check {
    type V = CheckView;

    open spec fn view(&self) -> CheckView {
        CheckView {
            status: opt_text(self.status),
            conclusion: opt_text(self.conclusion),
            state: opt_text(self.state),
        }
    }
}

/// What the checks report.
pub open spec fn check_views(v: Seq<Check>) -> Seq<CheckView> {
    Seq::new(v.len(), |i: int| v[i]@)
}

/// The three things that one check can mean.
pub enum Outcome {
    Good,
    Open,
    Bad,
}

/// What the word for an outcome means: it succeeded or does not matter, it is still
/// open, or anything else, which is a failure.
pub open spec fn word_outcome(w: Seq<char>) -> Outcome {
    if w == "SUCCESS"@ || w == "NEUTRAL"@ || w == "SKIPPED"@ {
        Outcome::Good
    } else if w == ""@ || w == "PENDING"@ || w == "EXPECTED"@ || w == "IN_PROGRESS"@ || w == "QUEUED"@
        || w == "WAITING"@ {
        Outcome::Open
    } else {
        Outcome::Bad
    }
}

/// What a check means: a run that is not completed is open; else its conclusion counts,
/// or its state where it has none.
pub open spec fn check_outcome(c: CheckView) -> Outcome {
    if c.status is Some && c.status->0 != "COMPLETED"@ {
        Outcome::Open
    } else {
        word_outcome(
            upper(
                match c.conclusion {
                    Some(w) => w,
                    None => match c.state {
                        Some(w) => w,
                        None => ""@,
                    },
                },
            ),
        )
    }
}

/// The state of all checks: failing where one failed, else pending where one is open, else
/// passing; none where there are none.
pub open spec fn rollup(v: Seq<CheckView>) -> PrStatus {
    if v.len() == 0 {
        PrStatus::NoChecks
    } else if exists|i: int| 0 <= i < v.len() && check_outcome(#[trigger] v[i]) == Outcome::Bad {
        PrStatus::Failing
    } else if exists|i: int| 0 <= i < v.len() && check_outcome(#[trigger] v[i]) == Outcome::Open {
        PrStatus::Pending
    } else {
        PrStatus::Passing
    }
}

fn outcome_of_word(w: &str) -> (r: Outcome)
    ensures
        r == word_outcome(w@),
{
    if same(w, "SUCCESS") || same(w, "NEUTRAL") || same(w, "SKIPPED") {
        Outcome::Good
    } else if same(w, "") || same(w, "PENDING") || same(w, "EXPECTED") || same(w, "IN_PROGRESS")
        || same(w, "QUEUED") || same(w, "WAITING") {
        Outcome::Open
    } else {
        Outcome::Bad
    }
}

fn outcome_of(c: &Check) -> (r: Outcome)
    ensures
        r == check_outcome(c@),
{
    if let Some(s) = &c.status {
        if !same(s.as_str(), "COMPLETED") {
            return Outcome::Open;
        }
    }
    let w = match &c.conclusion {
        Some(w) => w.as_str().to_uppercase(),
        None => match &c.state {
            Some(w) => w.as_str().to_uppercase(),
            None => "".to_uppercase(),
        },
    };
    outcome_of_word(w.as_str())
}

/// The state of all checks.
pub fn rollup_checks(v: &Vec<Check>) -> (r: PrStatus)
    ensures
        r == rollup(check_views(v@)),
{
    if v.len() == 0 {
        return PrStatus::NoChecks;
    }
    let ghost all = check_views(v@);
    let mut pending = false;
    let mut i: usize = 0;
    while i < v.len()
        invariant
            i <= v.len(),
            v.len() > 0,
            all == check_views(v@),
            forall|j: int| 0 <= j < i ==> check_outcome(#[trigger] all[j]) != Outcome::Bad,
            pending <==> exists|j: int| 0 <= j < i && check_outcome(#[trigger] all[j]) == Outcome::Open,
        decreases v.len() - i,
    {
        assert(all[i as int] == v@[i as int]@);
        match outcome_of(&v[i]) {
            Outcome::Good => {},
            Outcome::Open => {
                pending = true;
                assert(check_outcome(all[i as int]) == Outcome::Open);
            },
            Outcome::Bad => {
                assert(check_outcome(all[i as int]) == Outcome::Bad);
                return PrStatus::Failing;
            },
        }
        i = i + 1;
    }
    if pending {
        PrStatus::Pending
    } else {
        PrStatus::Passing
    }
}

/// One failed check makes the whole fail, whatever the others are.
pub proof fn one_failure_fails(v: Seq<CheckView>, i: int)
    requires
        0 <= i < v.len(),
        check_outcome(v[i]) == Outcome::Bad,
    ensures
        rollup(v) == PrStatus::Failing,
{
}

/// The order in which checks are listed does not matter.
pub proof fn order_of_checks_does_not_matter(v: Seq<CheckView>, w: Seq<CheckView>)
    requires
        v.to_set() == w.to_set(),
    ensures
        rollup(v) == rollup(w),
{
    assert forall|x: CheckView| v.contains(x) <==> w.contains(x) by {
        assert(v.to_set().contains(x) <==> v.contains(x));
        assert(w.to_set().contains(x) <==> w.contains(x));
    }
    if v.len() > 0 {
        assert(v.contains(v[0]));
    }
    if w.len() > 0 {
        assert(w.contains(w[0]));
    }
    assert forall|i: int| 0 <= i < v.len() implies exists|j: int| 0 <= j < w.len() && #[trigger] w[j]
        == #[trigger] v[i] by {
        assert(v.contains(v[i]));
    }
    assert forall|i: int| 0 <= i < w.len() implies exists|j: int| 0 <= j < v.len() && #[trigger] v[j]
        == #[trigger] w[i] by {
        assert(w.contains(w[i]));
    }
}

/// The text under a key.
pub open spec fn key_text(v: Value, key: Seq<char>) -> Option<Seq<char>> {
    match json_get(v, key) {
        Some(x) => json_text(x),
        None => None,
    }
}

/// What one value reports of a check.
pub open spec fn check_in(v: Value) -> CheckView {
    CheckView {
        status: key_text(v, "status"@),
        conclusion: key_text(v, "conclusion"@),
        state: key_text(v, "state"@),
    }
}

/// The checks that a pull request's value lists.
pub open spec fn checks_in(v: Value) -> Seq<CheckView> {
    match json_get(v, "statusCheckRollup"@) {
        Some(x) => match json_items(x) {
            Some(a) => a.map_values(|c: Value| check_in(c)),
            None => Seq::empty(),
        },
        None => Seq::empty(),
    }
}

fn text_under(v: &Value, key: &str) -> (r: Option<String>)
    ensures
        opt_text(r) == key_text(*v, key@),
{
    match get_key(v, key) {
        Some(x) => match get_str(x) {
            Some(s) => Some(s.to_owned()),
            None => None,
        },
        None => None,
    }
}

fn checks_of(v: &Value) -> (r: Vec<Check>)
    ensures
        check_views(r@) == checks_in(*v),
{
    let mut out: Vec<Check> = Vec::new();
    if let Some(x) = get_key(v, "statusCheckRollup") {
        if let Some(a) = get_items(x) {
            let mut i: usize = 0;
            while i < a.len()
                invariant
                    i <= a.len(),
                    out.len() == i,
                    forall|j: int| 0 <= j < i ==> (#[trigger] out@[j])@ == check_in(a@[j]),
                decreases a.len() - i,
            {
                let c = &a[i];
                out.push(
                    Check {
                        status: text_under(c, "status"),
                        conclusion: text_under(c, "conclusion"),
                        state: text_under(c, "state"),
                    },
                );
                i = i + 1;
            }
            assert(check_views(out@) =~= a@.map_values(|c: Value| check_in(c)));
            return out;
        }
    }
    assert(check_views(out@) =~= Seq::<CheckView>::empty());
    out
}

/// The state of the checks that a pull request's value lists.
pub fn rollup_status(v: &Value) -> (r: PrStatus)
    ensures
        r == rollup(checks_in(*v)),
{
    let c = checks_of(v);
    rollup_checks(&c)
}

/// The pull request of a branch.
#[derive(Debug)]
pub struct PrLink {
    pub number: u64,
    pub url: String,
    pub status: PrStatus,
    pub base: String,
    pub head: String,
}

/// What is known of a pull request.
pub ghost struct PrLinkView {
    pub number: u64,
    pub url: Seq<char>,
    pub status: PrStatus,
    pub base: Seq<char>,
    pub head: Seq<char>,
}

impl View for PrLink {
    type V = PrLinkView;

    open spec fn view(&self) -> PrLinkView {
        PrLinkView {
            number: self.number,
            url: self.url@,
            status: self.status,
            base: self.base@,
            head: self.head@,
        }
    }
}

/// What an optional pull request says.
pub open spec fn opt_link(o: Option<PrLink>) -> Option<PrLinkView> {
    match o {
        Some(l) => Some(l@),
        None => None,
    }
}

/// A text, or nothing where there is none.
pub open spec fn or_empty(o: Option<Seq<char>>) -> Seq<char> {
    match o {
        Some(s) => s,
        None => Seq::empty(),
    }
}

/// The pull request, from the parts that were read: there is one where it has a number and
/// an address.
pub open spec fn link_from(
    number: Option<u64>,
    url: Option<Seq<char>>,
    checks: Seq<CheckView>,
    base: Option<Seq<char>>,
    head: Option<Seq<char>>,
) -> Option<PrLinkView> {
    if number is Some && url is Some {
        Some(
            PrLinkView {
                number: number->0,
                url: url->0,
                status: rollup(checks),
                base: or_empty(base),
                head: or_empty(head),
            },
        )
    } else {
        None
    }
}

/// Puts a pull request together from the parts that were read.
pub fn make_link(
    number: Option<u64>,
    url: Option<String>,
    checks: &Vec<Check>,
    base: Option<String>,
    head: Option<String>,
) -> (r: Option<PrLink>)
    ensures
        opt_link(r) == link_from(
            number,
            opt_text(url),
            check_views(checks@),
            opt_text(base),
            opt_text(head),
        ),
{
    match number {
        Some(n) => match url {
            Some(u) => Some(
                PrLink {
                    number: n,
                    url: u,
                    status: rollup_checks(checks),
                    base: match base {
                        Some(b) => b,
                        None => String::new(),
                    },
                    head: match head {
                        Some(h) => h,
                        None => String::new(),
                    },
                },
            ),
            None => None,
        },
        None => None,
    }
}

/// The pull request that a value describes.
pub open spec fn link_in(v: Value) -> Option<PrLinkView> {
    link_from(
        match json_get(v, "number"@) {
            Some(n) => json_number(n),
            None => None,
        },
        key_text(v, "url"@),
        checks_in(v),
        key_text(v, "baseRefName"@),
        key_text(v, "headRefName"@),
    )
}

/// Reads the pull request from what the command printed: none where that is no JSON value,
/// or lacks the number or the address.
pub fn parse_pr_link(stdout: &[u8]) -> (r: Option<PrLink>)
    ensures
        opt_link(r) == match json_of(stdout@) {
            Some(v) => link_in(v),
            None => None,
        },
{
    match read_json(stdout) {
        Ok(v) => {
            let number = match get_key(&v, "number") {
                Some(n) => get_number(n),
                None => None,
            };
            let checks = checks_of(&v);
            make_link(
                number,
                text_under(&v, "url"),
                &checks,
                text_under(&v, "baseRefName"),
                text_under(&v, "headRefName"),
            )
        },
        Err(_) => None,
    }
}

// ── what the checks of a pull request say ───────────────────────────────────

/// Checks pass where there are some and all of them are good; they fail where one is bad, and are
/// pending where none is bad and one is open.
pub proof fn checks_pass_together(v: Seq<CheckView>)
    ensures
        rollup(v) == PrStatus::Passing <==> v.len() > 0 && forall|i: int| 0 <= i < v.len() ==> check_outcome(#[trigger] v[i]) == Outcome::Good,
        rollup(v) == PrStatus::Failing <==> exists|i: int| 0 <= i < v.len() && check_outcome(#[trigger] v[i]) == Outcome::Bad,
        rollup(v) == PrStatus::NoChecks <==> v.len() == 0,
        rollup(v) == PrStatus::Pending ==> exists|i: int| 0 <= i < v.len() && check_outcome(#[trigger] v[i]) == Outcome::Open,
{
    if v.len() > 0 {
        assert(check_outcome(v[0]) == Outcome::Good || check_outcome(v[0]) == Outcome::Bad || check_outcome(v[0]) == Outcome::Open);
    }
}

/// A check that has not completed is open, whatever else it says; of one that has, the conclusion
/// counts, and its state where it has none.
pub proof fn a_check_goes_by_its_conclusion(c: CheckView, w: Seq<char>)
    ensures
        c.status is Some && c.status->0 != "COMPLETED"@ ==> check_outcome(c) == Outcome::Open,
        (c.status is None || c.status->0 == "COMPLETED"@) && c.conclusion is Some ==> check_outcome(c) == word_outcome(upper(c.conclusion->0)),
        (c.status is None || c.status->0 == "COMPLETED"@) && c.conclusion is None && c.state is Some ==> check_outcome(c) == word_outcome(upper(c.state->0)),
{
}

/// Whether a word says that a check is good.
pub open spec fn good_word(w: Seq<char>) -> bool {
    w == "SUCCESS"@ || w == "NEUTRAL"@ || w == "SKIPPED"@
}

/// Whether a word says that a check is still open.
pub open spec fn open_word(w: Seq<char>) -> bool {
    w.len() == 0 || w == "PENDING"@ || w == "EXPECTED"@ || w == "IN_PROGRESS"@ || w == "QUEUED"@ || w == "WAITING"@
}

/// Success, neutral and skipped are good; what is pending, expected, queued, waiting or in progress
/// is open; any other word, such as failure, error or cancelled, is bad.
pub proof fn outcomes_go_by_their_words(w: Seq<char>)
    ensures
        word_outcome(w) == Outcome::Good <==> good_word(w),
        word_outcome(w) == Outcome::Bad <==> !good_word(w) && !open_word(w),
{
    reveal_strlit("");
    assert(w.len() == 0 <==> w =~= ""@);
}

/// A state has its own colour and its own words.
pub proof fn states_are_told_apart(a: PrStatus, b: PrStatus)
    ensures
        a != b ==> status_color(a) != status_color(b),
        status_color(PrStatus::Passing) == 0x6aaf6a && status_color(PrStatus::Failing) == 0xe04141 && status_color(PrStatus::Pending) == 0xd9a23b,
        check_words(PrStatus::Passing) == "checks passing"@ && check_words(PrStatus::Failing) == "checks failing"@,
        check_words(PrStatus::Pending) == "checks running"@ && check_words(PrStatus::NoChecks) == "no checks"@,
{
}

/// There is a pull request where it has a number and an address, and it says what was read.
pub proof fn a_pull_request_has_a_number_and_an_address(n: u64, url: Seq<char>, checks: Seq<CheckView>, base: Seq<char>, head: Seq<char>)
    ensures
        link_from(Some(n), Some(url), checks, Some(base), Some(head)) == Some(
            PrLinkView { number: n, url, status: rollup(checks), base, head },
        ),
        link_from(None, Some(url), checks, Some(base), Some(head)) is None,
        link_from(Some(n), None, checks, Some(base), Some(head)) is None,
        link_from(Some(n), Some(url), checks, None, None) == Some(
            PrLinkView { number: n, url, status: rollup(checks), base: Seq::empty(), head: Seq::empty() },
        ),
{
}

/// The parts are read from the fields that carry their names.
pub proof fn fields_are_read_by_name(v: Value)
    ensures
        check_in(v).status == key_text(v, "status"@) && check_in(v).conclusion == key_text(v, "conclusion"@) && check_in(v).state == key_text(v, "state"@),
        json_get(v, "statusCheckRollup"@) is None ==> checks_in(v).len() == 0,
        json_get(v, "statusCheckRollup"@) is Some && json_items(json_get(v, "statusCheckRollup"@)->0) is Some ==> checks_in(v).len() == json_items(
            json_get(v, "statusCheckRollup"@)->0,
        )->0.len(),
        json_get(v, "number"@) is None ==> link_in(v) is None,
        key_text(v, "url"@) is None ==> link_in(v) is None,
        link_in(v) is Some ==> link_in(v)->0.url == key_text(v, "url"@)->0 && link_in(v)->0.status == rollup(checks_in(v)),
        link_in(v) is Some && key_text(v, "headRefName"@) is Some ==> link_in(v)->0.head == key_text(v, "headRefName"@)->0,
        link_in(v) is Some && key_text(v, "baseRefName"@) is Some ==> link_in(v)->0.base == key_text(v, "baseRefName"@)->0,
{
}

} // verus!
