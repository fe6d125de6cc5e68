//! Fetching a file from the repository.
use crate::protocol::{Fault, Next};
use vstd::prelude::*;
use vstd::string::*;

verus! {

/// Something that an update of the offsets needs done.
#[derive(Debug)]
pub enum Errand {
    /// Send a GET request to this URL.
    Get(String),
    /// Read the text of the answer that came from this URL.
    Body(String),
    /// Tell whether there is a file with this path.
    Exists(String),
    /// Read the text of the file with this path.
    ReadText(String),
    /// Write to the file with this path this text.
    Write(String, String),
}

/// What came of an [`Errand`] of the same name.
#[derive(Debug)]
pub enum Outcome {
    /// The status code of the answer, or `None` where none came.
    Get(Option<u16>),
    /// The text, or what is said about the failure to read it.
    Body(Result<String, String>),
    Exists(bool),
    /// `None` where the file could not be read.
    ReadText(Option<String>),
    /// `false` where the file could not be written.
    Write(bool),
}

/// An [`Errand`] as a value.
pub enum ErrandView {
    Get(Seq<char>),
    Body(Seq<char>),
    Exists(Seq<char>),
    ReadText(Seq<char>),
    Write(Seq<char>, Seq<char>),
}

impl View for Errand {
    type V = ErrandView;

    open spec fn view(&self) -> ErrandView {
        match self {
            Errand::Get(url) => ErrandView::Get(url@),
            Errand::Body(url) => ErrandView::Body(url@),
            Errand::Exists(path) => ErrandView::Exists(path@),
            Errand::ReadText(path) => ErrandView::ReadText(path@),
            Errand::Write(path, text) => ErrandView::Write(path@, text@),
        }
    }
}

/// A text or what is said about a failure, as a value.
pub type TextResult = Result<Seq<char>, Seq<char>>;

/// The value of a text or of what is said about a failure.
pub open spec fn text_result(r: Result<String, String>) -> TextResult {
    match r {
        Ok(text) => Ok(text@),
        Err(reason) => Err(reason@),
    }
}

/// The value of an optional text.
pub open spec fn optional_text(text: Option<String>) -> Option<Seq<char>> {
    match text {
        Some(t) => Some(t@),
        None => None,
    }
}

/// An [`Outcome`] as a value.
pub enum OutcomeView {
    Get(Option<u16>),
    Body(TextResult),
    Exists(bool),
    ReadText(Option<Seq<char>>),
    Write(bool),
}

impl View for Outcome {
    type V = OutcomeView;

    open spec fn view(&self) -> OutcomeView {
        match self {
            Outcome::Get(status) => OutcomeView::Get(*status),
            Outcome::Body(r) => OutcomeView::Body(text_result(*r)),
            Outcome::Exists(b) => OutcomeView::Exists(*b),
            Outcome::ReadText(text) => OutcomeView::ReadText(optional_text(*text)),
            Outcome::Write(b) => OutcomeView::Write(*b),
        }
    }
}

/// A file that is being fetched.
#[derive(Debug)]
pub struct Fetch {
    pub url: String,
    /// An answer came, and its text is being read.
    pub answered: bool,
}

/// A [`Fetch`] as a value.
pub struct FetchView {
    pub url: Seq<char>,
    pub answered: bool,
}

impl View for Fetch {
    type V = FetchView;

    open spec fn view(&self) -> FetchView {
        FetchView { url: self.url@, answered: self.answered }
    }
}

pub type FetchNext = Next<Errand, Fetch, Result<String, String>>;

pub type FetchStep = Next<ErrandView, FetchView, TextResult>;

/// The value of a [`FetchNext`].
pub open spec fn fetch_view(n: FetchNext) -> FetchStep {
    match n {
        Next::Ask(q, s) => Next::Ask(q@, s@),
        Next::Done(r) => Next::Done(text_result(r)),
        Next::Fault(f) => Next::Fault(f),
    }
}

/// What a status is called: `reqwest::StatusCode` as its `Display` writes it.
pub uninterp spec fn status_text(code: u16) -> Seq<char>;

/// Calls `reqwest::StatusCode::from_u16`, which takes every code of three digits, and writes the
/// status with its `Display`: the code in decimal, a space, and what the code is called. What a
/// code is called is left open here.
#[verifier::external_body]
fn status_of(code: u16) -> (r: String)
    requires
        100 <= code <= 999,
    ensures
        r@ == status_text(code),
        (crate::number::decimal(code as nat) + " "@).is_prefix_of(r@),
{
    reqwest::StatusCode::from_u16(code).unwrap().to_string()
}

/// The URL of a file in the repository.
pub open spec fn file_url(path: Seq<char>, repo: Seq<char>) -> Seq<char> {
    "https://raw.githubusercontent.com/"@ + repo + "/"@ + path
}

/// The status says that the request succeeded.
pub open spec fn is_success(code: u16) -> bool {
    200 <= code < 300
}

/// What is said about an answer with a status that says no.
pub open spec fn refusal(status: Seq<char>, url: Seq<char>) -> Seq<char> {
    "Get error "@ + status + ": "@ + url
}

/// The first step: the request is sent.
pub open spec fn fetch_step(path: Seq<char>, repo: Seq<char>) -> FetchStep {
    Next::Ask(
        ErrandView::Get(file_url(path, repo)),
        FetchView { url: file_url(path, repo), answered: false },
    )
}

impl FetchView {
    /// The step that an outcome leads to. Of an answer that says that the request succeeded the
    /// text is read; anything else is a failure.
    pub open spec fn on_outcome(self, outcome: OutcomeView) -> FetchStep {
        match (self.answered, outcome) {
            (false, OutcomeView::Get(None)) => Next::Done(Err("Get error: "@ + self.url)),
            (false, OutcomeView::Get(Some(code))) => if is_success(code) {
                Next::Ask(
                    ErrandView::Body(self.url),
                    FetchView { url: self.url, answered: true },
                )
            } else if 100 <= code <= 999 {
                Next::Done(Err(refusal(status_text(code), self.url)))
            } else {
                Next::Fault(Fault::UnexpectedReply)
            },
            (true, OutcomeView::Body(r)) => Next::Done(r),
            _ => Next::Fault(Fault::UnexpectedReply),
        }
    }
}

/// Says what is wrong with an answer whose status says no.
pub fn describe_refusal(status: &str, url: &str) -> (r: String)
    ensures
        r@ == refusal(status@, url@),
{
    "Get error ".to_string().concat(status).concat(": ").concat(url)
}

/// Starts to fetch a file from the repository.
pub fn get_file(path: &str, repo: &str) -> (r: FetchNext)
    ensures
        fetch_view(r) == fetch_step(path@, repo@),
        r matches Next::Ask(_, s) && !s.answered,
{
    let url = "https://raw.githubusercontent.com/".to_string().concat(repo).concat("/").concat(path);
    Next::Ask(Errand::Get(url.clone()), Fetch { url, answered: false })
}

impl Fetch {
    /// Goes on with what came of the errand.
    pub fn resume(self, outcome: Outcome) -> (r: FetchNext)
        ensures
            fetch_view(r) == self@.on_outcome(outcome@),
    {
        match (self.answered, outcome) {
            (false, Outcome::Get(None)) => Next::Done(
                Err("Get error: ".to_string().concat(self.url.as_str())),
            ),
            (false, Outcome::Get(Some(code))) => {
                if 200 <= code && code < 300 {
                    Next::Ask(
                        Errand::Body(self.url.clone()),
                        Fetch { url: self.url, answered: true },
                    )
                } else if 100 <= code && code <= 999 {
                    Next::Done(
                        Err(describe_refusal(status_of(code).as_str(), self.url.as_str())),
                    )
                } else {
                    Next::Fault(Fault::UnexpectedReply)
                }
            },
            (true, Outcome::Body(r)) => Next::Done(r),
            _ => Next::Fault(Fault::UnexpectedReply),
        }
    }
}

/// Surroundings that hold still while the offsets are updated: each errand has one outcome.
pub struct Remote {
    pub get: spec_fn(Seq<char>) -> Option<u16>,
    pub body: spec_fn(Seq<char>) -> TextResult,
    pub exists: spec_fn(Seq<char>) -> bool,
    pub text: spec_fn(Seq<char>) -> Option<Seq<char>>,
    pub writable: spec_fn(Seq<char>) -> bool,
}

impl Remote {
    /// What comes of an errand in these surroundings.
    pub open spec fn outcome(self, q: ErrandView) -> OutcomeView {
        match q {
            ErrandView::Get(url) => OutcomeView::Get((self.get)(url)),
            ErrandView::Body(url) => OutcomeView::Body((self.body)(url)),
            ErrandView::Exists(path) => OutcomeView::Exists((self.exists)(path)),
            ErrandView::ReadText(path) => OutcomeView::ReadText((self.text)(path)),
            ErrandView::Write(path, _) => OutcomeView::Write((self.writable)(path)),
        }
    }

    /// Every answer has a status code of three digits.
    pub open spec fn has_proper_statuses(self) -> bool {
        forall|url: Seq<char>| (#[trigger] (self.get)(url)) is Some ==> 100 <= (self.get)(url)->0 <= 999
    }
}

/// What comes of fetching a file in surroundings that hold still.
pub open spec fn fetched(w: Remote, path: Seq<char>, repo: Seq<char>) -> TextResult {
    let url = file_url(path, repo);
    match (w.get)(url) {
        None => Err("Get error: "@ + url),
        Some(code) => if is_success(code) {
            (w.body)(url)
        } else {
            Err(refusal(status_text(code), url))
        },
    }
}

/// A file is fetched from its place in the repository. If no answer comes, that is the failure; an
/// answer with a status from 200 to 299 gives its text, or what is said about the failure to read
/// it; one with any other status is a failure, and its status is named.
pub proof fn lemma_only_success_gives_the_text(w: Remote, path: Seq<char>, repo: Seq<char>)
    ensures
        ({
            let url = "https://raw.githubusercontent.com/"@ + repo + "/"@ + path;
            match (w.get)(url) {
                None => fetched(w, path, repo) == TextResult::Err("Get error: "@ + url),
                Some(code) => {
                    &&& 200 <= code <= 299 ==> fetched(w, path, repo) == (w.body)(url)
                    &&& code < 200 || code > 299 ==> fetched(w, path, repo) == TextResult::Err(
                        "Get error "@ + status_text(code) + ": "@ + url,
                    )
                },
            }
        }),
{
}

/// A file is asked for at its URL. Where no answer comes, that is said, with the URL; of an answer
/// with a status from 200 to 299 the text is read, and it is the result, or what is said about the
/// failure to read it; of one with any other status of three digits the status and the URL are said.
pub proof fn lemma_fetching_step_by_step(
    path: Seq<char>,
    repo: Seq<char>,
    url: Seq<char>,
    status: Option<u16>,
    text: TextResult,
)
    ensures
        fetch_step(path, repo) == FetchStep::Ask(
            ErrandView::Get("https://raw.githubusercontent.com/"@ + repo + "/"@ + path),
            (FetchView {
                url: "https://raw.githubusercontent.com/"@ + repo + "/"@ + path,
                answered: false,
            }),
        ),
        ({
            let next = (FetchView { url, answered: false }).on_outcome(OutcomeView::Get(status));
            match status {
                None => next == FetchStep::Done(Err("Get error: "@ + url)),
                Some(code) => {
                    &&& 200 <= code <= 299 ==> next == FetchStep::Ask(
                        ErrandView::Body(url),
                        (FetchView { url, answered: true }),
                    )
                    &&& 100 <= code <= 199 || 300 <= code <= 999 ==> next == FetchStep::Done(
                        Err("Get error "@ + status_text(code) + ": "@ + url),
                    )
                    &&& code < 100 || code > 999 ==> next == FetchStep::Fault(
                        Fault::UnexpectedReply,
                    )
                },
            }
        }),
        (FetchView { url, answered: true }).on_outcome(OutcomeView::Body(text)) == FetchStep::Done(
            text,
        ),
{
}

} // verus!
