//! HTTP verbs, the recognised content types, and the header map.

use vstd::prelude::*;

use crate::text::same_text;

verus! {

#[derive(Debug, Hash, Eq, PartialEq, Clone)]
pub enum HttpMethods {
    GET,
    POST,
    PUT,
    DELETE,
    HEAD,
    OPTIONS,
    PATCH,
    CONNECT,
    TRACE,
}

/// The token by which a request line names a verb.
pub open spec fn method_token(m: HttpMethods) -> Seq<char> {
    match m {
        HttpMethods::GET => "GET"@,
        HttpMethods::POST => "POST"@,
        HttpMethods::PUT => "PUT"@,
        HttpMethods::DELETE => "DELETE"@,
        HttpMethods::HEAD => "HEAD"@,
        HttpMethods::OPTIONS => "OPTIONS"@,
        HttpMethods::PATCH => "PATCH"@,
        HttpMethods::CONNECT => "CONNECT"@,
        HttpMethods::TRACE => "TRACE"@,
    }
}

impl HttpMethods {
    pub fn to_string(&self) -> (r: &'static str)
        ensures
            r@ == method_token(*self),
    {
        match self {
            HttpMethods::GET => "GET",
            HttpMethods::POST => "POST",
            HttpMethods::PUT => "PUT",
            HttpMethods::DELETE => "DELETE",
            HttpMethods::HEAD => "HEAD",
            HttpMethods::OPTIONS => "OPTIONS",
            HttpMethods::PATCH => "PATCH",
            HttpMethods::CONNECT => "CONNECT",
            HttpMethods::TRACE => "TRACE",
        }
    }
}

pub enum ContentType {
    ApplicationJson,
    TextHtml,
    TextPlain,
    ApplicationXml,
    ApplicationXhtmlXml,
    ApplicationJavascript,
    ApplicationFormUrlencoded,
    MultipartFormData,
    ImagePng,
    ImageJpeg,
    ImageGif,
    Custom(String),
}

/// The MIME type that a content type stands for.
pub open spec fn mime_name(c: ContentType) -> Seq<char> {
    match c {
        ContentType::ApplicationJson => "application/json"@,
        ContentType::TextHtml => "text/html"@,
        ContentType::TextPlain => "text/plain"@,
        ContentType::ApplicationXml => "application/xml"@,
        ContentType::ApplicationXhtmlXml => "application/xhtml+xml"@,
        ContentType::ApplicationJavascript => "application/javascript"@,
        ContentType::ApplicationFormUrlencoded => "application/x-www-form-urlencoded"@,
        ContentType::MultipartFormData => "multipart/form-data"@,
        ContentType::ImagePng => "image/png"@,
        ContentType::ImageJpeg => "image/jpeg"@,
        ContentType::ImageGif => "image/gif"@,
        ContentType::Custom(s) => s@,
    }
}

/// Whether `s` is the name of one of the recognised MIME types.
pub open spec fn is_known_mime(s: Seq<char>) -> bool {
    s == "application/json"@ || s == "text/html"@ || s == "text/plain"@ || s
        == "application/xml"@ || s == "application/xhtml+xml"@ || s == "application/javascript"@
        || s == "application/x-www-form-urlencoded"@ || s == "multipart/form-data"@ || s
        == "image/png"@ || s == "image/jpeg"@ || s == "image/gif"@
}

/// Only `ApplicationJson` among the recognised variants is named `application/json`.
pub proof fn lemma_json_mime(c: ContentType)
    requires
        !(c is Custom),
    ensures
        (mime_name(c) == "application/json"@) <==> c is ApplicationJson,
{
    reveal_strlit("application/json");
    reveal_strlit("text/html");
    reveal_strlit("text/plain");
    reveal_strlit("application/xml");
    reveal_strlit("application/xhtml+xml");
    reveal_strlit("application/javascript");
    reveal_strlit("application/x-www-form-urlencoded");
    reveal_strlit("multipart/form-data");
    reveal_strlit("image/png");
    reveal_strlit("image/jpeg");
    reveal_strlit("image/gif");
    if !(c is ApplicationJson) && mime_name(c) == "application/json"@ {
        assert(mime_name(c)[4] == "application/json"@[4]);
        assert(mime_name(c).len() == "application/json"@.len());
    }
}

/// A value that can be read from its textual form.
pub trait ParseFromString: Sized {
    type Err;

    fn from_str(s: &str) -> Result<Self, Self::Err>;
}

impl ContentType {
    /// Classifies a MIME type name; a name that is not recognised gives the
    /// `Custom` variant carrying it, never an error.
    pub fn classify(s: &str) -> (r: ContentType)
        ensures
            mime_name(r) == s@,
            r is Custom <==> !is_known_mime(s@),
    {
        if same_text(s, "application/json") {
            ContentType::ApplicationJson
        } else if same_text(s, "text/html") {
            ContentType::TextHtml
        } else if same_text(s, "text/plain") {
            ContentType::TextPlain
        } else if same_text(s, "application/xml") {
            ContentType::ApplicationXml
        } else if same_text(s, "application/xhtml+xml") {
            ContentType::ApplicationXhtmlXml
        } else if same_text(s, "application/javascript") {
            ContentType::ApplicationJavascript
        } else if same_text(s, "application/x-www-form-urlencoded") {
            ContentType::ApplicationFormUrlencoded
        } else if same_text(s, "multipart/form-data") {
            ContentType::MultipartFormData
        } else if same_text(s, "image/png") {
            ContentType::ImagePng
        } else if same_text(s, "image/jpeg") {
            ContentType::ImageJpeg
        } else if same_text(s, "image/gif") {
            ContentType::ImageGif
        } else {
            ContentType::Custom(s.to_owned())
        }
    }
}

impl ParseFromString for ContentType {
    type Err = ();

    fn from_str(s: &str) -> (r: Result<ContentType, ()>)
        ensures
            r is Ok,
            mime_name(r->Ok_0) == s@,
            r->Ok_0 is Custom <==> !is_known_mime(s@),
    {
        Ok(ContentType::classify(s))
    }
}

/// The map made of `acc` by setting the fields from position `j` on, in order.
pub open spec fn insert_fields(
    f: Seq<(Seq<char>, Seq<char>)>,
    j: int,
    acc: Map<Seq<char>, Seq<char>>,
) -> Map<Seq<char>, Seq<char>>
    decreases f.len() - j,
{
    if 0 <= j < f.len() {
        insert_fields(f, j + 1, acc.insert(f[j].0, f[j].1))
    } else {
        acc
    }
}

/// Header fields by name: names are case-sensitive, and setting a name that is
/// already present replaces its value. Fields are kept in the order in which
/// their names were first set.
#[derive(Debug)]
pub struct HeaderMap {
    entries: Vec<(String, String)>,
}

impl View for HeaderMap {
    type V = Map<Seq<char>, Seq<char>>;

    open spec fn view(&self) -> Map<Seq<char>, Seq<char>> {
        Map::new(
            |k: Seq<char>| self.has_name(k),
            |k: Seq<char>|
                self.fields()[choose|i: int|
                    0 <= i < self.fields().len() && #[trigger] self.fields()[i].0 == k].1,
        )
    }
}

impl HeaderMap {
    /// The fields in order, as (name, value) pairs.
    pub closed spec fn fields(&self) -> Seq<(Seq<char>, Seq<char>)> {
        self.entries@.map_values(|p: (String, String)| (p.0@, p.1@))
    }

    /// No name occurs twice.
    #[verifier::type_invariant]
    pub closed spec fn wf(&self) -> bool {
        forall|i: int, j: int|
            0 <= i < j < self.fields().len() ==> #[trigger] self.fields()[i].0
                != #[trigger] self.fields()[j].0
    }

    pub open spec fn has_name(&self, k: Seq<char>) -> bool {
        exists|i: int| 0 <= i < self.fields().len() && #[trigger] self.fields()[i].0 == k
    }

    /// The field at `i` is what the map holds for its name.
    proof fn lemma_field(&self, i: int)
        requires
            self.wf(),
            0 <= i < self.fields().len(),
        ensures
            self.view().contains_key(self.fields()[i].0),
            self.view()[self.fields()[i].0] == self.fields()[i].1,
    {
        let k = self.fields()[i].0;
        assert(self.has_name(k));
        let j = choose|j: int| 0 <= j < self.fields().len() && #[trigger] self.fields()[j].0 == k;
        if j != i {
            if j < i {
                assert(self.fields()[j].0 != self.fields()[i].0);
            } else {
                assert(self.fields()[i].0 != self.fields()[j].0);
            }
        }
    }

    proof fn lemma_insert_fields_from(&self, j: int, acc: Map<Seq<char>, Seq<char>>)
        requires
            self.wf(),
            0 <= j <= self.fields().len(),
            forall|i: int|
                0 <= i < j ==> acc.contains_key(#[trigger] self.fields()[i].0) && acc[self.fields()[i].0]
                    == self.fields()[i].1,
            forall|k: Seq<char>|
                #[trigger] acc.contains_key(k) ==> exists|i: int|
                    0 <= i < j && #[trigger] self.fields()[i].0 == k,
        ensures
            forall|i: int|
                0 <= i < self.fields().len() ==> insert_fields(self.fields(), j, acc).contains_key(
                    #[trigger] self.fields()[i].0,
                ) && insert_fields(self.fields(), j, acc)[self.fields()[i].0] == self.fields()[i].1,
            forall|k: Seq<char>|
                #[trigger] insert_fields(self.fields(), j, acc).contains_key(k) ==> exists|i: int|
                    0 <= i < self.fields().len() && #[trigger] self.fields()[i].0 == k,
        decreases self.fields().len() - j,
    {
        let f = self.fields();
        if j < f.len() {
            let acc2 = acc.insert(f[j].0, f[j].1);
            assert forall|i: int| 0 <= i < j + 1 implies acc2.contains_key(#[trigger] f[i].0)
                && acc2[f[i].0] == f[i].1 by {
                if i < j {
                    assert(f[i].0 != f[j].0);
                }
            }
            assert forall|k: Seq<char>| #[trigger] acc2.contains_key(k) implies exists|i: int|
                0 <= i < j + 1 && #[trigger] f[i].0 == k by {
                if k == f[j].0 {
                    assert(f[j].0 == k);
                } else {
                    assert(acc.contains_key(k));
                }
            }
            self.lemma_insert_fields_from(j + 1, acc2);
        }
    }

    /// Setting the fields in order, starting from no fields, gives the map.
    pub proof fn lemma_insert_fields_view(&self)
        requires
            self.wf(),
        ensures
            insert_fields(self.fields(), 0, Map::empty()) == self@,
    {
        self.lemma_insert_fields_from(0, Map::empty());
        let f = self.fields();
        let r = insert_fields(f, 0, Map::empty());
        assert forall|k: Seq<char>| #![auto] r.contains_key(k) == self@.contains_key(k) by {
            if self.has_name(k) {
                let i = choose|i: int| 0 <= i < f.len() && #[trigger] f[i].0 == k;
                assert(r.contains_key(f[i].0));
            }
        }
        assert forall|k: Seq<char>| #[trigger] r.contains_key(k) implies r[k] == self@[k] by {
            let i = choose|i: int| 0 <= i < f.len() && #[trigger] f[i].0 == k;
            self.lemma_field(i);
        }
        assert(r =~= self@);
    }

    pub fn new() -> (r: HeaderMap)
        ensures
            r.view() == Map::<Seq<char>, Seq<char>>::empty(),
            r.fields().len() == 0,
    {
        let r = HeaderMap { entries: Vec::new() };
        assert(r.view() =~= Map::<Seq<char>, Seq<char>>::empty());
        r
    }

    /// Sets `key` to `value`, replacing an earlier value of `key`.
    pub fn insert(&mut self, key: String, value: String)
        ensures
            final(self).view() == old(self).view().insert(key@, value@),
    {
        proof {
            use_type_invariant(&*self);
        }
        let ghost pre = *self;
        let mut taken = HeaderMap { entries: Vec::new() };
        core::mem::swap(self, &mut taken);
        let mut entries = taken.entries;
        assert(pre.entries == entries);
        let n = entries.len();
        let mut i: usize = 0;
        while i < n
            invariant
                entries == pre.entries,
                pre == *old(self),
                pre.wf(),
                n == pre.fields().len(),
                i <= n,
                forall|j: int| 0 <= j < i ==> #[trigger] pre.fields()[j].0 != key@,
            decreases n - i,
        {
            if entries[i].0 == key {
                entries.set(i, (key, value));
                let ghost nf = entries@.map_values(|p: (String, String)| (p.0@, p.1@));
                proof {
                    assert(nf =~= pre.fields().update(i as int, (key@, value@)));
                    assert(pre.fields()[i as int].0 == key@);
                    assert forall|a: int, b: int|
                        0 <= a < b < nf.len() implies #[trigger] nf[a].0 != #[trigger] nf[b].0 by {
                        assert(pre.fields()[a].0 != pre.fields()[b].0);
                    }
                }
                *self = HeaderMap { entries };
                proof {
                    assert(self.fields() == nf);
                    let target = pre.view().insert(key@, value@);
                    assert forall|k: Seq<char>| #![auto]
                        self.view().contains_key(k) == target.contains_key(k) by {
                        if pre.has_name(k) {
                            let j = choose|j: int|
                                0 <= j < pre.fields().len() && #[trigger] pre.fields()[j].0 == k;
                            assert(nf[j].0 == k);
                        }
                        if self.has_name(k) {
                            let j = choose|j: int| 0 <= j < nf.len() && #[trigger] nf[j].0 == k;
                            if j != i {
                                assert(pre.fields()[j].0 == k);
                            }
                        }
                    }
                    assert forall|k: Seq<char>| #[trigger]
                        self.view().contains_key(k) implies self.view()[k] == target[k] by {
                        let j = choose|j: int| 0 <= j < nf.len() && #[trigger] nf[j].0 == k;
                        self.lemma_field(j);
                        if j != i {
                            pre.lemma_field(j);
                        }
                    }
                    assert(self.view() =~= target);
                }
                return;
            }
            i += 1;
        }
        entries.push((key, value));
        let ghost nf = entries@.map_values(|p: (String, String)| (p.0@, p.1@));
        proof {
            assert(nf =~= pre.fields().push((key@, value@)));
            assert forall|a: int, b: int|
                0 <= a < b < nf.len() implies #[trigger] nf[a].0 != #[trigger] nf[b].0 by {
                if b < n {
                    assert(pre.fields()[a].0 != pre.fields()[b].0);
                }
            }
        }
        *self = HeaderMap { entries };
        proof {
            assert(self.fields() == nf);
            let target = pre.view().insert(key@, value@);
            assert forall|k: Seq<char>| #![auto]
                self.view().contains_key(k) == target.contains_key(k) by {
                if pre.has_name(k) {
                    let j = choose|j: int|
                        0 <= j < pre.fields().len() && #[trigger] pre.fields()[j].0 == k;
                    assert(nf[j].0 == k);
                }
                if self.has_name(k) {
                    let j = choose|j: int| 0 <= j < nf.len() && #[trigger] nf[j].0 == k;
                    if j != n {
                        assert(pre.fields()[j].0 == k);
                    }
                }
                if k == key@ {
                    assert(nf[n as int].0 == k);
                }
            }
            assert forall|k: Seq<char>| #[trigger]
                self.view().contains_key(k) implies self.view()[k] == target[k] by {
                let j = choose|j: int| 0 <= j < nf.len() && #[trigger] nf[j].0 == k;
                self.lemma_field(j);
                if j != n {
                    pre.lemma_field(j);
                }
            }
            assert(self.view() =~= target);
        }
    }

    /// The value of `key`, if it is set.
    pub fn get(&self, key: &str) -> (r: Option<&String>)
        ensures
            r is Some <==> self.view().contains_key(key@),
            r is Some ==> r->0@ == self.view()[key@],
    {
        proof {
            use_type_invariant(self);
        }
        let n = self.entries.len();
        let mut i: usize = 0;
        while i < n
            invariant
                self.wf(),
                n == self.fields().len(),
                i <= n,
                forall|j: int| 0 <= j < i ==> #[trigger] self.fields()[j].0 != key@,
            decreases n - i,
        {
            if same_text(self.entries[i].0.as_str(), key) {
                proof {
                    self.lemma_field(i as int);
                }
                return Some(&self.entries[i].1);
            }
            i += 1;
        }
        None
    }

    /// The number of fields.
    pub fn len(&self) -> (r: usize)
        ensures
            r == self.fields().len(),
    {
        self.entries.len()
    }

    /// The field at position `i`, as (name, value).
    pub fn field(&self, i: usize) -> (r: (&String, &String))
        requires
            i < self.fields().len(),
        ensures
            r.0@ == self.fields()[i as int].0,
            r.1@ == self.fields()[i as int].1,
    {
        (&self.entries[i].0, &self.entries[i].1)
    }
}

} // verus!
