use homebank::cookies::{CookieJar, CookieRecord};
use homebank::forms::{find_forms, find_inputs, FormElement};
use homebank::login::{
    begin_login, debug_request, session_of, DebugLog, LoginState, LoginStep,
    MissingUsernamePassword, Request, Response, TsbContainer, UnableToLogin,
};
use homebank::query::{get_attr, get_node_name, get_text_content, parse_dom};
use homebank::tree::{Attribute, IterNodes, Node, NodeData};

const HTML: &str = "http://www.w3.org/1999/xhtml";
const SVG: &str = "http://www.w3.org/2000/svg";

fn element(ns: &str, local: &str, attrs: Vec<Attribute>, children: Vec<Node>) -> Node {
    Node {
        data: NodeData::Element { ns: ns.to_string(), local: local.to_string(), attrs },
        children,
    }
}

fn text(t: &str) -> Node {
    Node { data: NodeData::Text { contents: t.to_string() }, children: vec![] }
}

fn attr(ns: &str, local: &str, value: &str) -> Attribute {
    Attribute { ns: ns.to_string(), local: local.to_string(), value: value.to_string() }
}

fn label(n: &Node) -> String {
    match &n.data {
        NodeData::Element { local, .. } => local.clone(),
        NodeData::Text { contents } => contents.clone(),
        NodeData::Other => "?".to_string(),
    }
}

fn traversal(root: &Node) -> Vec<String> {
    let mut it = IterNodes::from(root);
    let mut out = vec![];
    while let Some(n) = it.next() {
        out.push(label(n));
    }
    out
}

fn container() -> TsbContainer {
    match TsbContainer::from_creds("alice\nsecret\n") {
        Ok(c) => c,
        Err(_) => panic!("credentials should parse"),
    }
}

fn ok(body: &str, set_cookies: Vec<&str>) -> Result<Response, reqwest::Error> {
    Ok(Response {
        set_cookies: set_cookies.into_iter().map(|s| s.to_string()).collect(),
        body: body.to_string(),
    })
}

fn no_log() -> DebugLog {
    DebugLog { enabled: false, dumps: vec![] }
}

const HOME: &str = "<html><body><form id=\"signonForm\"><input name=\"card\"><input name=\"password\"><input name=\"op\" value=\"signon\"></form></body></html>";
const DASHBOARD: &str = "<html><body><input name=\"nextSequenceID\" value=\"12345\"><dashboard customer-number=\"987-654\"></dashboard></body></html>";

#[test]
fn traversal_is_breadth_first() {
    let tree = element(
        HTML,
        "a",
        vec![],
        vec![
            element(HTML, "b", vec![], vec![element(HTML, "d", vec![], vec![]), text("e")]),
            element(HTML, "c", vec![], vec![element(HTML, "f", vec![], vec![])]),
        ],
    );
    assert_eq!(traversal(&tree), vec!["a", "b", "c", "d", "e", "f"]);
}

#[test]
fn traversal_of_single_node() {
    let tree = text("only");
    let mut it = IterNodes::from(&tree);
    assert_eq!(it.next().map(label), Some("only".to_string()));
    assert!(it.next().is_none());
    assert!(it.next().is_none());
}

#[test]
fn tag_name_of_html_element_is_lower_case() {
    let n = element(HTML, "FORM", vec![], vec![]);
    assert_eq!(get_node_name(&n), Some("form".to_string()));
}

#[test]
fn tag_name_of_foreign_element_is_none() {
    let n = element(SVG, "form", vec![], vec![]);
    assert_eq!(get_node_name(&n), None);
    assert_eq!(get_node_name(&text("form")), None);
}

#[test]
fn attr_absent_or_namespaced_is_none() {
    let n = element(
        HTML,
        "input",
        vec![attr("http://www.w3.org/1999/xlink", "name", "x"), attr("", "id", "y")],
        vec![],
    );
    assert_eq!(get_attr(&n, "name"), None);
    assert_eq!(get_attr(&n, "value"), None);
    assert_eq!(get_attr(&n, "id"), Some("y".to_string()));
    assert_eq!(get_attr(&n, "ID"), None);
    assert_eq!(get_attr(&text("id"), "id"), None);
}

#[test]
fn attr_takes_first_match() {
    let n = element(HTML, "input", vec![attr("", "name", "first"), attr("", "name", "second")], vec![]);
    assert_eq!(get_attr(&n, "name"), Some("first".to_string()));
}

#[test]
fn text_content_joins_trimmed_text() {
    let tree = element(
        HTML,
        "p",
        vec![],
        vec![text("  hello "), element(HTML, "b", vec![], vec![text(" big\n")]), text("world")],
    );
    assert_eq!(get_text_content(&tree), "hello world big");
    assert_eq!(get_text_content(&element(HTML, "p", vec![], vec![])), "");
}

#[test]
fn find_forms_on_tree_without_forms_is_empty() {
    let dom = match parse_dom("<html><body><p>no forms</p></body></html>".to_string()) {
        Ok(d) => d,
        Err(_) => panic!("document should parse"),
    };
    assert!(find_forms(&dom).is_empty());
}

#[test]
fn find_forms_skips_foreign_forms() {
    let tree = element(
        HTML,
        "body",
        vec![],
        vec![element(SVG, "form", vec![], vec![]), element(HTML, "form", vec![attr("", "id", "f")], vec![])],
    );
    let forms = find_forms(&tree);
    assert_eq!(forms.len(), 1);
    assert_eq!(get_attr(forms[0], "id"), Some("f".to_string()));
}

#[test]
fn find_inputs_keeps_absent_attributes_absent() {
    let dom = match parse_dom(HOME.to_string()) {
        Ok(d) => d,
        Err(_) => panic!("document should parse"),
    };
    let inputs = find_inputs(&dom);
    assert_eq!(inputs.len(), 3);
    match &inputs[0] {
        FormElement::Input { name, id, value } => {
            assert_eq!(name, &Some("card".to_string()));
            assert_eq!(id, &None);
            assert_eq!(value, &None);
        }
    }
    assert_eq!(inputs[2].value(), &Some("signon".to_string()));
}

#[test]
fn credentials_need_two_lines() {
    let c = container();
    assert_eq!(c.user, "alice");
    assert_eq!(c.pass, "secret");
    let c = match TsbContainer::from_creds("bob\r\npw") {
        Ok(c) => c,
        Err(_) => panic!("two lines"),
    };
    assert_eq!(c.user, "bob");
    assert_eq!(c.pass, "pw");
    assert!(matches!(TsbContainer::from_creds("only one\n"), Err(MissingUsernamePassword::FileFormatError)));
    assert!(matches!(TsbContainer::from_creds(""), Err(MissingUsernamePassword::FileFormatError)));
}

#[test]
fn outgoing_cookies_match_base_domain() {
    let mut c = container();
    c.update_cookies(&vec![
        "good=1; Domain=tsbbank.co.nz".to_string(),
        "bad=2; Domain=evil.com".to_string(),
        "sub=3; Domain=.homebank.tsbbank.co.nz".to_string(),
        "plain=4".to_string(),
        "not a cookie".to_string(),
    ]);
    assert_eq!(
        c.get_cookies(),
        vec![
            ("good".to_string(), "1".to_string()),
            ("sub".to_string(), "3".to_string()),
            ("plain".to_string(), "4".to_string()),
        ]
    );
}

#[test]
fn cookie_marked_insecure_is_not_sent() {
    let mut jar = CookieJar::new();
    jar.add(CookieRecord { name: "a".to_string(), value: "1".to_string(), domain: None, secure: Some(false) });
    jar.add(CookieRecord { name: "b".to_string(), value: "2".to_string(), domain: None, secure: Some(true) });
    assert_eq!(jar.outgoing_header("tsbbank.co.nz"), vec![("b".to_string(), "2".to_string())]);
}

#[test]
fn later_cookie_of_same_name_wins() {
    let mut jar = CookieJar::new();
    jar.ingest(&vec!["sid=old".to_string(), "other=x".to_string()]);
    jar.ingest(&vec!["sid=new".to_string()]);
    assert_eq!(
        jar.outgoing_header("tsbbank.co.nz"),
        vec![("sid".to_string(), "new".to_string()), ("other".to_string(), "x".to_string())]
    );
}

#[test]
fn debug_log_records_only_when_enabled() {
    let mut log = DebugLog { enabled: true, dumps: vec![] };
    debug_request(&mut log, &"body".to_string(), "home");
    assert_eq!(log.dumps, vec![("home".to_string(), "body".to_string())]);
    let mut off = no_log();
    debug_request(&mut off, &"body".to_string(), "home");
    assert!(off.dumps.is_empty());
}

#[test]
fn login_end_to_end() {
    let mut c = container();
    let mut log = no_log();
    assert!(matches!(begin_login(), LoginStep::Send(LoginState::HomeRequested, Request::Get)));
    let step = c.do_login(&mut log, LoginState::HomeRequested, ok(HOME, vec!["JSESSIONID=abc; Secure"]));
    match step {
        LoginStep::Send(LoginState::CredentialsSubmitted, Request::Post(params)) => assert_eq!(
            params,
            vec![
                ("card".to_string(), "alice".to_string()),
                ("password".to_string(), "secret".to_string()),
                ("op".to_string(), "signon".to_string()),
            ]
        ),
        _ => panic!("expected the form to be posted"),
    }
    assert_eq!(c.get_cookies(), vec![("JSESSIONID".to_string(), "abc".to_string())]);
    let step = c.do_login(&mut log, LoginState::CredentialsSubmitted, ok("welcome", vec![]));
    assert!(matches!(step, LoginStep::Send(LoginState::DashboardRequested, Request::Get)));
    match c.do_login(&mut log, LoginState::DashboardRequested, ok(DASHBOARD, vec![])) {
        LoginStep::LoggedIn(user) => {
            assert_eq!(user.next_sequence_id, "12345");
            assert_eq!(user.customer_number, "987-654");
        }
        _ => panic!("expected a session"),
    }
}

#[test]
fn login_without_form_is_invalid_dom() {
    let mut c = container();
    let step = c.do_login(&mut no_log(), LoginState::HomeRequested, ok("<p>maintenance</p>", vec![]));
    assert!(matches!(step, LoginStep::Failed(UnableToLogin::InvalidDom)));
    let step = c.do_login(
        &mut no_log(),
        LoginState::HomeRequested,
        ok("<form id=\"other\"><input name=\"card\"></form>", vec![]),
    );
    assert!(matches!(step, LoginStep::Failed(UnableToLogin::InvalidDom)));
}

#[test]
fn login_without_sequence_id_fails() {
    let mut c = container();
    let page = "<input name=\"other\" value=\"1\"><dashboard customer-number=\"987-654\"></dashboard>";
    let step = c.do_login(&mut no_log(), LoginState::DashboardRequested, ok(page, vec![]));
    assert!(matches!(step, LoginStep::Failed(UnableToLogin::MissingSequenceID)));
}

#[test]
fn login_without_customer_number_fails() {
    let mut c = container();
    let page = "<input id=\"nextSequenceID\" value=\"7\"><dashboard></dashboard>";
    let step = c.do_login(&mut no_log(), LoginState::DashboardRequested, ok(page, vec![]));
    assert!(matches!(step, LoginStep::Failed(UnableToLogin::MissingCustomerNumber)));
}

#[test]
fn sequence_id_needs_a_value() {
    let page = "<input name=\"nextSequenceID\"><input id=\"nextSequenceID\" value=\"42\"><dashboard customer-number=\"1\"></dashboard>";
    let dom = match parse_dom(page.to_string()) {
        Ok(d) => d,
        Err(_) => panic!("document should parse"),
    };
    match session_of(&dom) {
        LoginStep::LoggedIn(user) => assert_eq!(user.next_sequence_id, "42"),
        _ => panic!("expected a session"),
    }
}

#[test]
fn cookie_for_other_domain_is_not_sent() {
    let mut jar = CookieJar::new();
    jar.ingest(&vec!["a=1; Domain=tsbbank.co.nz".to_string(), "b=2; Domain=evil.com".to_string()]);
    assert_eq!(jar.outgoing_header("tsbbank.co.nz"), vec![("a".to_string(), "1".to_string())]);
}

#[test]
fn parse_dom_builds_html_elements() {
    let dom = match parse_dom("<P class=\"x\">Hi <svg><form></form></svg></P>".to_string()) {
        Ok(d) => d,
        Err(_) => panic!("document should parse"),
    };
    let names: Vec<Option<String>> = {
        let mut it = IterNodes::from(&dom);
        let mut out = vec![];
        while let Some(n) = it.next() {
            out.push(get_node_name(n));
        }
        out
    };
    assert!(names.contains(&Some("p".to_string())));
    assert!(find_forms(&dom).is_empty());
    assert_eq!(get_text_content(&dom), "Hi");
}
