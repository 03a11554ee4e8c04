use vstd::prelude::*;

verus! {

/// A cookie's name, value, domain and secure flag.
pub type CookieFields = (Seq<char>, Seq<char>, Option<Seq<char>>, Option<bool>);

/// A cookie as the session keeps it.
pub struct CookieRecord {
    pub name: String,
    pub value: String,
    pub domain: Option<String>,
    pub secure: Option<bool>,
}

impl CookieRecord {
    pub open spec fn fields(&self) -> CookieFields {
        (
            self.name@,
            self.value@,
            match self.domain {
                Some(d) => Some(d@),
                None => None,
            },
            self.secure,
        )
    }
}

/// The cookie that the cookie crate reads from a `Set-Cookie` value, or none
/// where it rejects the value.
pub uninterp spec fn parsed_set_cookie(s: Seq<char>) -> Option<CookieFields>;

/// The fields of an optional cookie.
pub open spec fn opt_fields(c: Option<CookieRecord>) -> Option<CookieFields> {
    match c {
        Some(c) => Some(c.fields()),
        None => None,
    }
}

/// Relies on `cookie::Cookie::parse`, and on its accessors `name`, `value`,
/// `domain` and `secure`: the cookie depends on the text alone, and its name is
/// never empty.
#[verifier::external_body]
fn parse_cookie(s: &str) -> (r: Option<CookieRecord>)
    ensures
        opt_fields(r) == parsed_set_cookie(s@),
        r is Some ==> r->Some_0.name@.len() > 0,
{
    match cookie::Cookie::parse(s) {
        Ok(c) => Some(CookieRecord {
            name: c.name().to_owned(),
            value: c.value().to_owned(),
            domain: c.domain().map(|d| d.to_owned()),
            secure: c.secure(),
        }),
        Err(_) => None,
    }
}

/// Relies on `str::ends_with`: whether `suffix` is a suffix of `s`.
#[verifier::external_body]
fn ends_with(s: &str, suffix: &str) -> (r: bool)
    ensures
        r == is_suffix(suffix@, s@),
{
    s.ends_with(suffix)
}

/// Whether `suffix` is a suffix of `s`.
pub open spec fn is_suffix(suffix: Seq<char>, s: Seq<char>) -> bool {
    suffix.len() <= s.len() && s.subrange(s.len() - suffix.len(), s.len() as int) == suffix
}

/// No two cookies share a name.
pub open spec fn names_unique(s: Seq<CookieFields>) -> bool {
    forall|i: int, j: int| 0 <= i < j < s.len() ==> s[i].0 != s[j].0
}

/// Whether `i` is the first position of `s` that holds a cookie named `name`.
pub open spec fn first_named(s: Seq<CookieFields>, name: Seq<char>, i: int) -> bool {
    0 <= i < s.len() && s[i].0 == name && forall|j: int| 0 <= j < i ==> s[j].0 != name
}

/// The cookies `s` after adding `c`: the first cookie of the same name is
/// replaced in place, and a new name joins at the end.
pub open spec fn with_cookie(s: Seq<CookieFields>, c: CookieFields) -> Seq<CookieFields> {
    if exists|i: int| 0 <= i < s.len() && s[i].0 == c.0 {
        s.update(choose|i: int| first_named(s, c.0, i), c)
    } else {
        s.push(c)
    }
}

/// Where a name occurs in `s`, its first position exists and is unique.
pub proof fn lemma_first_named(s: Seq<CookieFields>, name: Seq<char>, k: int)
    requires
        0 <= k < s.len(),
        s[k].0 == name,
    ensures
        exists|i: int| first_named(s, name, i),
        forall|i: int, j: int| first_named(s, name, i) && first_named(s, name, j) ==> i == j,
    decreases k,
{
    if exists|j: int| 0 <= j < k && s[j].0 == name {
        let j = choose|j: int| 0 <= j < k && s[j].0 == name;
        lemma_first_named(s, name, j);
    } else {
        assert(first_named(s, name, k));
    }
}

/// The cookies `s` after taking in each `Set-Cookie` value of `headers` in
/// order; values that do not parse are skipped.
pub open spec fn ingested(s: Seq<CookieFields>, headers: Seq<Seq<char>>) -> Seq<CookieFields>
    decreases headers.len(),
{
    if headers.len() == 0 {
        s
    } else {
        let prev = ingested(s, headers.drop_last());
        match parsed_set_cookie(headers.last()) {
            Some(c) => with_cookie(prev, c),
            None => prev,
        }
    }
}

/// Whether a cookie may go out on a request to `base`: it is not marked
/// insecure, and its domain (`base` where it has none) ends with `base`.
pub open spec fn sendable(c: CookieFields, base: Seq<char>) -> bool {
    c.3 != Some(false) && is_suffix(
        base,
        match c.2 {
            Some(d) => d,
            None => base,
        },
    )
}

/// The name and value of each cookie of `s` that may go out to `base`.
pub open spec fn outgoing(s: Seq<CookieFields>, base: Seq<char>) -> Seq<(Seq<char>, Seq<char>)> {
    s.filter(|c: CookieFields| sendable(c, base)).map_values(|c: CookieFields| (c.0, c.1))
}

/// The text of a list of name and value pairs.
pub open spec fn pairs_view(v: Seq<(String, String)>) -> Seq<(Seq<char>, Seq<char>)> {
    v.map_values(|p: (String, String)| (p.0@, p.1@))
}

/// The cookies of one session, at most one for each name.
pub struct CookieJar {
    cookies: Vec<CookieRecord>,
}

impl CookieJar {
    /// The cookies, in the order in which their names first came.
    pub closed spec fn view(&self) -> Seq<CookieFields> {
        self.cookies@.map_values(|c: CookieRecord| c.fields())
    }

    pub open spec fn wf(&self) -> bool {
        names_unique(self.view())
    }

    /// An empty jar.
    pub fn new() -> (r: Self)
        ensures
            r.wf(),
            r.view() == Seq::<CookieFields>::empty(),
    {
        let r = CookieJar { cookies: Vec::new() };
        assert(r.view() =~= Seq::<CookieFields>::empty());
        r
    }

    /// Adds `c`, replacing the cookie of the same name if there is one.
    pub fn add(&mut self, c: CookieRecord)
        ensures
            old(self).wf() ==> final(self).wf(),
            final(self).view() == with_cookie(old(self).view(), c.fields()),
    {
        let ghost s = self.view();
        let ghost cf = c.fields();
        let mut i: usize = 0;
        while i < self.cookies.len()
            invariant
                0 <= i <= self.cookies@.len(),
                self.view() == s,
                s == old(self).view(),
                cf == c.fields(),
                forall|j: int| 0 <= j < i ==> s[j].0 != c.fields().0,
            decreases self.cookies@.len() - i,
        {
            if self.cookies[i].name == c.name {
                assert(s[i as int].0 == cf.0);
                assert(first_named(s, cf.0, i as int));
                proof {
                    lemma_first_named(s, cf.0, i as int);
                }
                let ghost k = choose|k: int| first_named(s, cf.0, k);
                assert(k == i);
                self.cookies.set(i, c);
                assert(self.view() =~= s.update(i as int, cf));
                assert(with_cookie(s, cf) == s.update(i as int, cf));
                return;
            }
            i = i + 1;
        }
        self.cookies.push(c);
        assert(self.view() =~= s.push(c.fields()));
    }

    /// Takes in every `Set-Cookie` value of `headers`, in order; values that
    /// do not parse are skipped.
    pub fn ingest(&mut self, headers: &Vec<String>)
        ensures
            old(self).wf() ==> final(self).wf(),
            final(self).view() == ingested(
                old(self).view(),
                headers@.map_values(|h: String| h@),
            ),
    {
        let ghost s = self.view();
        let ghost hs = headers@.map_values(|h: String| h@);
        let mut i: usize = 0;
        while i < headers.len()
            invariant
                0 <= i <= headers@.len(),
                hs == headers@.map_values(|h: String| h@),
                names_unique(s) ==> self.wf(),
                self.view() == ingested(s, hs.subrange(0, i as int)),
            decreases headers@.len() - i,
        {
            assert(hs.subrange(0, i + 1).drop_last() =~= hs.subrange(0, i as int));
            if let Some(c) = parse_cookie(headers[i].as_str()) {
                self.add(c);
            }
            i = i + 1;
        }
        assert(hs.subrange(0, headers@.len() as int) =~= hs);
    }

    /// The name and value of every cookie that may go out to `base`, in jar
    /// order.
    pub fn outgoing_header(&self, base: &str) -> (r: Vec<(String, String)>)
        ensures
            pairs_view(r@) == outgoing(self.view(), base@),
    {
        let ghost pred = |c: CookieFields| sendable(c, base@);
        let ghost f = |c: CookieFields| (c.0, c.1);
        let mut r: Vec<(String, String)> = Vec::new();
        let mut i: usize = 0;
        while i < self.cookies.len()
            invariant
                0 <= i <= self.cookies@.len(),
                pred == (|c: CookieFields| sendable(c, base@)),
                f == (|c: CookieFields| (c.0, c.1)),
                pairs_view(r@) == self.view().subrange(0, i as int).filter(pred).map_values(f),
            decreases self.cookies@.len() - i,
        {
            let c = &self.cookies[i];
            let ghost prefix = self.view().subrange(0, i as int);
            let ghost next = self.view().subrange(0, i + 1);
            proof {
                assert(next.drop_last() =~= prefix);
                assert(next.last() == c.fields());
                reveal(Seq::filter);
            }
            let secure_ok = match c.secure {
                Some(s) => s,
                None => true,
            };
            let domain_ok = match &c.domain {
                Some(d) => ends_with(d.as_str(), base),
                None => ends_with(base, base),
            };
            let ghost old_r = pairs_view(r@);
            if secure_ok && domain_ok {
                r.push((c.name.clone(), c.value.clone()));
                assert(pairs_view(r@) =~= old_r.push(f(c.fields())));
                assert(next.filter(pred) == prefix.filter(pred).push(c.fields()));
                assert(next.filter(pred).map_values(f) =~= prefix.filter(pred).map_values(f).push(
                    f(c.fields()),
                ));
            } else {
                assert(pairs_view(r@) =~= old_r);
            }
            i = i + 1;
        }
        assert(self.view().subrange(0, self.cookies@.len() as int) =~= self.view());
        r
    }
}

/// Adding a cookie and then another of the same name leaves the jar as adding
/// the second alone would: the last value written wins.
pub proof fn lemma_last_write_wins(s: Seq<CookieFields>, c1: CookieFields, c2: CookieFields)
    requires
        c1.0 == c2.0,
    ensures
        with_cookie(with_cookie(s, c1), c2) == with_cookie(s, c2),
{
    let t = with_cookie(s, c1);
    if exists|i: int| 0 <= i < s.len() && s[i].0 == c1.0 {
        let k0 = choose|i: int| 0 <= i < s.len() && s[i].0 == c1.0;
        lemma_first_named(s, c1.0, k0);
        let i = choose|i: int| first_named(s, c1.0, i);
        assert(first_named(t, c2.0, i));
        lemma_first_named(t, c2.0, i);
        let k = choose|k: int| first_named(t, c2.0, k);
        assert(k == i);
        assert(t.update(k, c2) =~= s.update(i, c2));
    } else {
        assert(first_named(t, c2.0, s.len() as int));
        lemma_first_named(t, c2.0, s.len() as int);
        let k = choose|k: int| first_named(t, c2.0, k);
        assert(k == s.len());
        assert(t.update(k, c2) =~= s.push(c2));
    }
}

} // verus!
