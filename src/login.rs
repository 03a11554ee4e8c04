use crate::cookies::{ingested, outgoing, pairs_view, CookieJar};
use crate::forms::{
    deref_all, find_forms, find_inputs, forms_of, has_tag, inputs_of, is_named, ControlFields,
    FormElement,
};
use crate::query::{attr_value, get_attr, get_node_name, parse_dom, parsed_document};
use crate::tree::{bfs_order, IterNodes, Node};
use vstd::prelude::*;
use vstd::string::*;

verus! {

/// reqwest's error type, carried unopened from the transport to the caller.
#[verifier::external_type_specification]
#[verifier::external_body]
pub struct ExReqwestError(reqwest::Error);

/// The portal that the session logs in to.
pub const BASE_URL: &'static str = "https://homebank.tsbbank.co.nz/online/";

/// The domain that the session's cookies must belong to.
pub const COOKIE_BASE: &'static str = "tsbbank.co.nz";

/// Why the credentials could not be had.
pub enum MissingUsernamePassword {
    FileIoError(std::io::Error),
    FileFormatError,
}

/// Why a login failed.
pub enum UnableToLogin {
    /// The portal refused the credentials. Nothing produces it yet: a portal
    /// that shows the login form again after a wrong password is only found
    /// out when the tokens are missing.
    BadCredentials(String),
    ReqwestError(reqwest::Error),
    InvalidContent(std::io::Error),
    InvalidDom,
    MissingSequenceID,
    MissingCustomerNumber,
}

/// A response to one request of the session, as the transport received it
/// with a success status.
pub struct Response {
    pub set_cookies: Vec<String>,
    pub body: String,
}

/// Request dumps, kept only while enabled.
pub struct DebugLog {
    pub enabled: bool,
    pub dumps: Vec<(String, String)>,
}

/// Records the text of a response under `name` when the log is enabled.
pub fn debug_request(log: &mut DebugLog, text: &String, name: &str)
    ensures
        final(log).enabled == old(log).enabled,
        pairs_view(final(log).dumps@) == if old(log).enabled {
            pairs_view(old(log).dumps@).push((name@, text@))
        } else {
            pairs_view(old(log).dumps@)
        },
{
    if log.enabled {
        let ghost before = pairs_view(log.dumps@);
        log.dumps.push((String::from_str(name), text.clone()));
        assert(pairs_view(log.dumps@) =~= before.push((name@, text@)));
    }
}

/// The index of the first line feed of `s` at or after `i`, or the length of
/// `s` where there is none.
pub open spec fn newline_from(s: Seq<char>, i: int) -> int
    decreases s.len() - i,
{
    if i >= s.len() {
        s.len() as int
    } else if s[i] == '\n' {
        i
    } else {
        newline_from(s, i + 1)
    }
}

/// A line without the carriage return that ended it.
pub open spec fn strip_cr(l: Seq<char>) -> Seq<char> {
    if l.len() > 0 && l.last() == '\r' {
        l.drop_last()
    } else {
        l
    }
}

/// The first line of `s` and the text after its line ending; none where `s`
/// is empty. A line ends at a line feed, or a carriage return and line feed;
/// the last line needs no ending.
pub open spec fn first_line(s: Seq<char>) -> Option<(Seq<char>, Seq<char>)> {
    if s.len() == 0 {
        None
    } else {
        let e = newline_from(s, 0);
        if e < s.len() {
            Some((strip_cr(s.subrange(0, e)), s.subrange(e + 1, s.len() as int)))
        } else {
            Some((s, Seq::empty()))
        }
    }
}

/// The username and password that a credentials text holds on its first two
/// lines; none where it has fewer than two lines.
pub open spec fn creds_of(s: Seq<char>) -> Option<(Seq<char>, Seq<char>)> {
    match first_line(s) {
        Some((user, rest)) => match first_line(rest) {
            Some((pass, _)) => Some((user, pass)),
            None => None,
        },
        None => None,
    }
}

/// Splits off the first line of `s`.
fn split_first_line(s: &str) -> (r: Option<(String, &str)>)
    ensures
        match r {
            Some((l, rest)) => first_line(s@) == Some((l@, rest@)),
            None => first_line(s@) is None,
        },
{
    let n = s.unicode_len();
    if n == 0 {
        return None;
    }
    let mut i: usize = 0;
    while i < n
        invariant
            n == s@.len(),
            0 <= i <= n,
            newline_from(s@, 0) == newline_from(s@, i as int),
        ensures
            0 <= i <= n,
            newline_from(s@, 0) == newline_from(s@, i as int),
            i < n ==> s@[i as int] == '\n',
        decreases n - i,
    {
        if s.get_char(i) == '\n' {
            break;
        }
        i = i + 1;
    }
    if i == n {
        let empty = s.substring_char(n, n);
        assert(empty@ =~= Seq::<char>::empty());
        return Some((s.to_owned(), empty));
    }
    assert(newline_from(s@, 0) == i);
    let rest = s.substring_char(i + 1, n);
    if i > 0 && s.get_char(i - 1) == '\r' {
        let l = s.substring_char(0, i - 1);
        assert(s@.subrange(0, i as int).drop_last() =~= s@.subrange(0, i - 1));
        Some((l.to_owned(), rest))
    } else {
        let l = s.substring_char(0, i);
        Some((l.to_owned(), rest))
    }
}

/// A login session in the making: the credentials and the cookies received.
pub struct TsbContainer {
    pub user: String,
    pub pass: String,
    pub jar: CookieJar,
}

/// A logged-in session: the tokens that the portal handed out.
pub struct TsbLoggedInUser {
    pub next_sequence_id: String,
    pub customer_number: String,
}

/// The first value that `f` gives on the items of `s`, in order.
pub open spec fn first_some<A, B>(s: Seq<A>, f: spec_fn(A) -> Option<B>) -> Option<B>
    decreases s.len(),
{
    if s.len() == 0 {
        None
    } else {
        match f(s[0]) {
            Some(b) => Some(b),
            None => first_some(s.drop_first(), f),
        }
    }
}

/// The form parameter that a control gives: its name, and the username for
/// `card`, the password for `password`, or else its own value (empty where it
/// has none). A control without a name gives none.
pub open spec fn param_of(f: ControlFields, user: Seq<char>, pass: Seq<char>) -> Option<
    (Seq<char>, Seq<char>),
> {
    match f.0 {
        Some(n) => Some(
            (
                n,
                if n == "card"@ {
                    user
                } else if n == "password"@ {
                    pass
                } else {
                    match f.2 {
                        Some(v) => v,
                        None => Seq::empty(),
                    }
                },
            ),
        ),
        None => None,
    }
}

/// The parameters that the controls `fs` submit.
pub open spec fn form_params(fs: Seq<ControlFields>, user: Seq<char>, pass: Seq<char>) -> Seq<
    (Seq<char>, Seq<char>),
> {
    fs.filter_map(|f: ControlFields| param_of(f, user, pass))
}

/// The node itself where it carries the login form's `id`.
pub open spec fn as_signon_form(n: Node) -> Option<Node> {
    if attr_value(n, "id"@) == Some("signonForm"@) {
        Some(n)
    } else {
        None
    }
}

/// The parameters of the first login form of `dom`, with the credentials
/// filled in; none where `dom` has no login form.
pub open spec fn login_params(dom: Node, user: Seq<char>, pass: Seq<char>) -> Option<
    Seq<(Seq<char>, Seq<char>)>,
> {
    match first_some(forms_of(dom), |n: Node| as_signon_form(n)) {
        Some(form) => Some(form_params(inputs_of(form), user, pass)),
        None => None,
    }
}

/// The value of a control named or identified as the sequence id.
pub open spec fn seq_id_of(f: ControlFields) -> Option<Seq<char>> {
    if f.0 == Some("nextSequenceID"@) || f.1 == Some("nextSequenceID"@) {
        f.2
    } else {
        None
    }
}

/// The sequence id of a document: the value of its first input named or
/// identified `nextSequenceID` that has one.
pub open spec fn sequence_id(dom: Node) -> Option<Seq<char>> {
    first_some(inputs_of(dom), |f: ControlFields| seq_id_of(f))
}

/// The customer number that a node carries, if it is a `dashboard` element.
pub open spec fn customer_number_of(n: Node) -> Option<Seq<char>> {
    if has_tag(n, "dashboard"@) {
        attr_value(n, "customer-number"@)
    } else {
        None
    }
}

/// The customer number of a document: the `customer-number` of its first
/// `dashboard` element that has one.
pub open spec fn customer_number(dom: Node) -> Option<Seq<char>> {
    first_some(bfs_order(dom), |n: Node| customer_number_of(n))
}

/// The text of a list of strings.
pub open spec fn strings_view(v: Seq<String>) -> Seq<Seq<char>> {
    v.map_values(|h: String| h@)
}

/// The sequence id of the document `doc`.
pub fn find_next_sequence_id(doc: &Node) -> (r: Result<String, UnableToLogin>)
    ensures
        match sequence_id(*doc) {
            Some(id) => r is Ok && r->Ok_0@ == id,
            None => r is Err && r->Err_0 is MissingSequenceID,
        },
{
    let key = String::from_str("nextSequenceID");
    let inputs = find_inputs(doc);
    let ghost fs = inputs@.map_values(|e: FormElement| e.fields());
    let ghost g = |f: ControlFields| seq_id_of(f);
    let mut i: usize = 0;
    assert(fs.subrange(0, fs.len() as int) =~= fs);
    while i < inputs.len()
        invariant
            0 <= i <= inputs@.len(),
            fs == inputs@.map_values(|e: FormElement| e.fields()),
            fs == inputs_of(*doc),
            key@ == "nextSequenceID"@,
            g == (|f: ControlFields| seq_id_of(f)),
            first_some(fs, g) == first_some(fs.subrange(i as int, fs.len() as int), g),
        decreases inputs@.len() - i,
    {
        let ghost rest = fs.subrange(i as int, fs.len() as int);
        assert(rest[0] == inputs@[i as int].fields());
        assert(rest.drop_first() =~= fs.subrange(i + 1, fs.len() as int));
        let e = &inputs[i];
        let by_name = is_named(e.name(), &key);
        let by_id = is_named(e.id(), &key);
        if by_name || by_id {
            if let Some(v) = e.value() {
                return Ok(v.clone());
            }
        }
        i = i + 1;
    }
    Err(UnableToLogin::MissingSequenceID)
}

/// The customer number of the document `doc`.
pub fn find_customer_number(doc: &Node) -> (r: Result<String, UnableToLogin>)
    ensures
        match customer_number(*doc) {
            Some(n) => r is Ok && r->Ok_0@ == n,
            None => r is Err && r->Err_0 is MissingCustomerNumber,
        },
{
    let dashboard = String::from_str("dashboard");
    let ghost g = |n: Node| customer_number_of(n);
    let mut it = IterNodes::from(doc);
    loop
        invariant
            dashboard@ == "dashboard"@,
            g == (|n: Node| customer_number_of(n)),
            first_some(bfs_order(*doc), g) == first_some(it.remaining(), g),
        decreases it.remaining().len(),
    {
        match it.next() {
            None => {
                return Err(UnableToLogin::MissingCustomerNumber);
            },
            Some(n) => {
                let name = get_node_name(n);
                if is_named(&name, &dashboard) {
                    let cn = get_attr(n, "customer-number");
                    if let Some(v) = cn {
                        return Ok(v);
                    }
                }
            },
        }
    }
}

/// Whether `r` is what a dashboard page `dom` ends a login with: the session
/// with its sequence id and customer number, or the error for the first of
/// them that is missing.
pub open spec fn session_result(dom: Node, r: LoginStep) -> bool {
    match sequence_id(dom) {
        None => r is Failed && r->Failed_0 is MissingSequenceID,
        Some(id) => match customer_number(dom) {
            None => r is Failed && r->Failed_0 is MissingCustomerNumber,
            Some(n) => r is LoggedIn && r->LoggedIn_0.next_sequence_id@ == id
                && r->LoggedIn_0.customer_number@ == n,
        },
    }
}

/// The end of a login on the dashboard page `dom`.
pub fn session_of(dom: &Node) -> (r: LoginStep)
    ensures
        session_result(*dom, r),
{
    let next_sequence_id = match find_next_sequence_id(dom) {
        Ok(id) => id,
        Err(e) => {
            return LoginStep::Failed(e);
        },
    };
    let customer_number = match find_customer_number(dom) {
        Ok(n) => n,
        Err(e) => {
            return LoginStep::Failed(e);
        },
    };
    LoginStep::LoggedIn(TsbLoggedInUser { next_sequence_id, customer_number })
}

/// A document without `form` elements has no login form, so the login fails
/// on it with `InvalidDom`.
pub proof fn lemma_no_form_no_login(dom: Node, user: Seq<char>, pass: Seq<char>)
    requires
        forms_of(dom).len() == 0,
    ensures
        login_params(dom, user, pass) is None,
{
}

/// A document none of whose inputs is named or identified `nextSequenceID`
/// has no sequence id, so the login fails on it with `MissingSequenceID`.
pub proof fn lemma_no_sequence_input(dom: Node)
    requires
        forall|i: int|
            0 <= i < inputs_of(dom).len() ==> #[trigger] inputs_of(dom)[i].0 != Some("nextSequenceID"@)
                && inputs_of(dom)[i].1 != Some("nextSequenceID"@),
    ensures
        sequence_id(dom) is None,
        forall|r: LoginStep| #[trigger] session_result(dom, r) ==> r is Failed && r->Failed_0 is MissingSequenceID,
{
    lemma_first_some_none(inputs_of(dom), |f: ControlFields| seq_id_of(f));
}

/// Where `f` gives nothing on any item of `s`, there is no first value.
pub proof fn lemma_first_some_none<A, B>(s: Seq<A>, f: spec_fn(A) -> Option<B>)
    requires
        forall|i: int| 0 <= i < s.len() ==> #[trigger] f(s[i]) is None,
    ensures
        first_some(s, f) is None,
    decreases s.len(),
{
    if s.len() > 0 {
        assert forall|i: int| 0 <= i < s.drop_first().len() implies #[trigger] f(s.drop_first()[i]) is None by {
            assert(s.drop_first()[i] == s[i + 1]);
        }
        lemma_first_some_none(s.drop_first(), f);
    }
}

/// Where a login attempt stands while it waits for a response.
pub enum LoginState {
    HomeRequested,
    CredentialsSubmitted,
    DashboardRequested,
}

/// A request to the portal's base address.
pub enum Request {
    Get,
    Post(Vec<(String, String)>),
}

/// What a login attempt does next.
pub enum LoginStep {
    /// Send the request (with the session's cookies) and hand the response
    /// back in the given state.
    Send(LoginState, Request),
    LoggedIn(TsbLoggedInUser),
    Failed(UnableToLogin),
}

/// The first step of every login attempt: fetch the portal's home page.
pub fn begin_login() -> (r: LoginStep)
    ensures
        r is Send && r->Send_0 is HomeRequested && r->Send_1 is Get,
{
    LoginStep::Send(LoginState::HomeRequested, Request::Get)
}

impl TsbContainer {
    /// A session for the credentials on the first two lines of `contents`,
    /// with no cookies.
    pub fn from_creds(contents: &str) -> (r: Result<Self, MissingUsernamePassword>)
        ensures
            match creds_of(contents@) {
                Some((user, pass)) => r is Ok && r->Ok_0.user@ == user && r->Ok_0.pass@ == pass
                    && r->Ok_0.jar.wf() && r->Ok_0.jar.view().len() == 0,
                None => r is Err && r->Err_0 is FileFormatError,
            },
    {
        match split_first_line(contents) {
            Some((user, rest)) => match split_first_line(rest) {
                Some((pass, _)) => Ok(TsbContainer { user, pass, jar: CookieJar::new() }),
                None => Err(MissingUsernamePassword::FileFormatError),
            },
            None => Err(MissingUsernamePassword::FileFormatError),
        }
    }

    /// Takes in the `Set-Cookie` values of a response.
    pub fn update_cookies(&mut self, set_cookies: &Vec<String>)
        ensures
            old(self).jar.wf() ==> final(self).jar.wf(),
            final(self).jar.view() == ingested(old(self).jar.view(), strings_view(set_cookies@)),
            final(self).user == old(self).user,
            final(self).pass == old(self).pass,
    {
        self.jar.ingest(set_cookies);
    }

    /// The cookies to send with the next request.
    pub fn get_cookies(&self) -> (r: Vec<(String, String)>)
        ensures
            pairs_view(r@) == outgoing(self.jar.view(), "tsbbank.co.nz"@),
    {
        self.jar.outgoing_header(COOKIE_BASE)
    }

    /// Finishes one exchange: on a response, takes in its cookies and gives
    /// its body; a transport error is handed on and leaves the cookies alone.
    pub fn get_document(&mut self, response: Result<Response, reqwest::Error>) -> (r: Result<
        String,
        reqwest::Error,
    >)
        ensures
            old(self).jar.wf() ==> final(self).jar.wf(),
            final(self).user == old(self).user,
            final(self).pass == old(self).pass,
            match response {
                Ok(resp) => r == Ok::<String, reqwest::Error>(resp.body) && final(self).jar.view()
                    == ingested(old(self).jar.view(), strings_view(resp.set_cookies@)),
                Err(e) => r == Err::<String, reqwest::Error>(e) && final(self).jar.view() == old(
                    self,
                ).jar.view(),
            },
    {
        match response {
            Ok(resp) => {
                self.update_cookies(&resp.set_cookies);
                Ok(resp.body)
            },
            Err(e) => Err(e),
        }
    }

    /// Finishes the exchange for a page and parses it.
    pub fn get_home(&mut self, log: &mut DebugLog, response: Result<Response, reqwest::Error>) -> (r:
        Result<Node, UnableToLogin>)
        ensures
            old(self).jar.wf() ==> final(self).jar.wf(),
            final(self).user == old(self).user,
            final(self).pass == old(self).pass,
            final(log).enabled == old(log).enabled,
            match response {
                Ok(resp) => final(self).jar.view() == ingested(
                    old(self).jar.view(),
                    strings_view(resp.set_cookies@),
                ) && match parsed_document(resp.body@) {
                    Some(dom) => r == Ok::<Node, UnableToLogin>(dom),
                    None => r is Err && r->Err_0 is InvalidContent,
                },
                Err(e) => r == Err::<Node, UnableToLogin>(UnableToLogin::ReqwestError(e))
                    && final(self).jar.view() == old(self).jar.view(),
            },
    {
        let text = match self.get_document(response) {
            Ok(t) => t,
            Err(e) => {
                return Err(UnableToLogin::ReqwestError(e));
            },
        };
        debug_request(log, &text, "home");
        match parse_dom(text) {
            Ok(dom) => Ok(dom),
            Err(e) => Err(UnableToLogin::InvalidContent(e)),
        }
    }

    /// The parameters to submit for the login form of `dom`, with this
    /// session's credentials filled in.
    pub fn login_form_params(&self, dom: &Node) -> (r: Result<Vec<(String, String)>, UnableToLogin>)
        ensures
            match login_params(*dom, self.user@, self.pass@) {
                Some(p) => r is Ok && pairs_view(r->Ok_0@) == p,
                None => r is Err && r->Err_0 is InvalidDom,
            },
    {
        let signon = String::from_str("signonForm");
        let forms = find_forms(dom);
        let ghost fs = deref_all(forms@);
        let ghost g = |n: Node| as_signon_form(n);
        let mut i: usize = 0;
        assert(fs.subrange(0, fs.len() as int) =~= fs);
        while i < forms.len()
            invariant
                0 <= i <= forms@.len(),
                fs == deref_all(forms@),
                fs == forms_of(*dom),
                signon@ == "signonForm"@,
                g == (|n: Node| as_signon_form(n)),
                first_some(fs, g) == first_some(fs.subrange(i as int, fs.len() as int), g),
            decreases forms@.len() - i,
        {
            let ghost rest = fs.subrange(i as int, fs.len() as int);
            assert(rest[0] == *forms@[i as int]);
            assert(rest.drop_first() =~= fs.subrange(i + 1, fs.len() as int));
            let id = get_attr(forms[i], "id");
            if is_named(&id, &signon) {
                return Ok(self.params_of_form(forms[i]));
            }
            i = i + 1;
        }
        Err(UnableToLogin::InvalidDom)
    }

    /// Takes one step of the login protocol, on the response to the request of
    /// the step before: the home page gives the login form, whose parameters
    /// are then posted; the post's response asks for the dashboard; and the
    /// dashboard gives the session's tokens. Every failure ends the attempt.
    pub fn do_login(
        &mut self,
        log: &mut DebugLog,
        state: LoginState,
        response: Result<Response, reqwest::Error>,
    ) -> (r: LoginStep)
        ensures
            old(self).jar.wf() ==> final(self).jar.wf(),
            final(self).user == old(self).user,
            final(self).pass == old(self).pass,
            match response {
                Err(e) => r == LoginStep::Failed(UnableToLogin::ReqwestError(e))
                    && final(self).jar.view() == old(self).jar.view(),
                Ok(resp) => final(self).jar.view() == ingested(
                    old(self).jar.view(),
                    strings_view(resp.set_cookies@),
                ) && match state {
                    LoginState::HomeRequested => match parsed_document(resp.body@) {
                        None => r is Failed && r->Failed_0 is InvalidContent,
                        Some(dom) => match login_params(dom, old(self).user@, old(self).pass@) {
                            None => r is Failed && r->Failed_0 is InvalidDom,
                            Some(p) => r is Send && r->Send_0 is CredentialsSubmitted
                                && r->Send_1 is Post && pairs_view(r->Send_1->Post_0@) == p,
                        },
                    },
                    LoginState::CredentialsSubmitted => r is Send && r->Send_0 is DashboardRequested
                        && r->Send_1 is Get,
                    LoginState::DashboardRequested => match parsed_document(resp.body@) {
                        None => r is Failed && r->Failed_0 is InvalidContent,
                        Some(dom) => session_result(dom, r),
                    },
                },
            },
    {
        match state {
            LoginState::HomeRequested => {
                let dom = match self.get_home(log, response) {
                    Ok(d) => d,
                    Err(e) => {
                        return LoginStep::Failed(e);
                    },
                };
                match self.login_form_params(&dom) {
                    Ok(params) => LoginStep::Send(LoginState::CredentialsSubmitted, Request::Post(params)),
                    Err(e) => LoginStep::Failed(e),
                }
            },
            LoginState::CredentialsSubmitted => {
                match self.get_document(response) {
                    Ok(_) => LoginStep::Send(LoginState::DashboardRequested, Request::Get),
                    Err(e) => LoginStep::Failed(UnableToLogin::ReqwestError(e)),
                }
            },
            LoginState::DashboardRequested => {
                let dom = match self.get_home(log, response) {
                    Ok(d) => d,
                    Err(e) => {
                        return LoginStep::Failed(e);
                    },
                };
                session_of(&dom)
            },
        }
    }

    /// The parameters that the controls of `form` submit.
    fn params_of_form(&self, form: &Node) -> (r: Vec<(String, String)>)
        ensures
            pairs_view(r@) == form_params(inputs_of(*form), self.user@, self.pass@),
    {
        let card = String::from_str("card");
        let password = String::from_str("password");
        let inputs = find_inputs(form);
        let ghost fs = inputs@.map_values(|e: FormElement| e.fields());
        let ghost g = |f: ControlFields| param_of(f, self.user@, self.pass@);
        let mut r: Vec<(String, String)> = Vec::new();
        let mut i: usize = 0;
        while i < inputs.len()
            invariant
                0 <= i <= inputs@.len(),
                fs == inputs@.map_values(|e: FormElement| e.fields()),
                card@ == "card"@,
                password@ == "password"@,
                g == (|f: ControlFields| param_of(f, self.user@, self.pass@)),
                pairs_view(r@) == fs.subrange(0, i as int).filter_map(g),
            decreases inputs@.len() - i,
        {
            let e = &inputs[i];
            let ghost prefix = fs.subrange(0, i as int);
            let ghost next = fs.subrange(0, i + 1);
            assert(next.drop_last() =~= prefix);
            assert(next.last() == e.fields());
            let ghost old_r = pairs_view(r@);
            if let Some(name) = e.name() {
                let v = if *name == card {
                    self.user.clone()
                } else if *name == password {
                    self.pass.clone()
                } else {
                    match e.value() {
                        Some(v) => v.clone(),
                        None => String::new(),
                    }
                };
                r.push((name.clone(), v));
                assert(pairs_view(r@) =~= old_r + seq![(name@, v@)]);
            } else {
                assert(pairs_view(r@) =~= old_r);
            }
            i = i + 1;
        }
        assert(fs.subrange(0, fs.len() as int) =~= fs);
        r
    }
}

} // verus!
