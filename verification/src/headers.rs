//! Request headers, and the content type that a consumer is told.
use vstd::prelude::*;
use vstd::utf8::encode_utf8;

verus! {

/// The headers of a request, in their order: names in lower case, values as
/// they came.
pub struct Headers {
    pub entries: Vec<(String, Vec<u8>)>,
}

impl View for Headers {
    type V = Seq<(Seq<char>, Seq<u8>)>;

    open spec fn view(&self) -> Seq<(Seq<char>, Seq<u8>)> {
        self.entries@.map_values(|entry: (String, Vec<u8>)| (entry.0@, entry.1@))
    }
}

/// The first value under a name.
pub open spec fn first_value(headers: Seq<(Seq<char>, Seq<u8>)>, name: Seq<char>) -> Option<
    Seq<u8>,
>
    decreases headers.len(),
{
    if headers.len() == 0 {
        None
    } else if headers[0].0 == name {
        Some(headers[0].1)
    } else {
        first_value(headers.skip(1), name)
    }
}

/// What `curl` sends along with a `POST` unless it is told otherwise.
pub open spec fn form_urlencoded() -> Seq<u8> {
    encode_utf8("application/x-www-form-urlencoded"@)
}

/// The content type of data of which nothing else is known.
pub open spec fn octet_stream() -> Seq<u8> {
    encode_utf8("application/octet-stream"@)
}

/// The content type of what a producer with these headers sends: its own
/// `content-type`, unless there is none or it only says that the request was
/// made by default settings.
pub open spec fn forwarded_content_type(headers: Seq<(Seq<char>, Seq<u8>)>) -> Seq<u8> {
    match first_value(headers, "content-type"@) {
        Some(value) => if value == form_urlencoded() {
            octet_stream()
        } else {
            value
        },
        None => octet_stream(),
    }
}

/// A copy of some bytes.
pub(crate) fn copy_bytes(bytes: &Vec<u8>) -> (copy: Vec<u8>)
    ensures
        copy@ == bytes@,
{
    let copy = bytes.clone();
    assert(copy@ =~= bytes@);
    copy
}

impl Headers {
    /// The first value under a name.
    pub fn get(&self, name: &String) -> (value: Option<&Vec<u8>>)
        ensures
            match value {
                Some(v) => first_value(self@, name@) == Some(v@),
                None => first_value(self@, name@) is None,
            },
    {
        let mut i: usize = 0;
        assert(self@.skip(0) =~= self@);
        while i < self.entries.len()
            invariant
                i <= self.entries@.len(),
                first_value(self@, name@) == first_value(self@.skip(i as int), name@),
            decreases self.entries@.len() - i,
        {
            assert(self@.skip(i as int)[0] == self@[i as int]);
            if self.entries[i].0 == *name {
                return Some(&self.entries[i].1);
            }
            assert(self@.skip(i as int).skip(1) =~= self@.skip(i + 1));
            i = i + 1;
        }
        None
    }

    /// The content type under which a producer's data is handed on.
    pub fn content_type(&self) -> (content_type: Vec<u8>)
        ensures
            content_type@ == forwarded_content_type(self@),
    {
        match self.get(&"content-type".to_owned()) {
            Some(value) => {
                let form: Vec<u8> = vstd::slice::slice_to_vec(
                    "application/x-www-form-urlencoded".as_bytes(),
                );
                if *value == form {
                    assert(value@ =~= form@);
                    return vstd::slice::slice_to_vec("application/octet-stream".as_bytes());
                }
                copy_bytes(value)
            },
            None => vstd::slice::slice_to_vec("application/octet-stream".as_bytes()),
        }
    }
}

impl Clone for Headers {
    fn clone(&self) -> (copy: Self)
        ensures
            copy@ == self@,
    {
        let mut entries: Vec<(String, Vec<u8>)> = Vec::new();
        let mut i: usize = 0;
        while i < self.entries.len()
            invariant
                i <= self.entries@.len(),
                entries@.len() == i,
                forall|j: int|
                    0 <= j < i ==> (#[trigger] entries@[j]).0@ == self.entries@[j].0@
                        && entries@[j].1@ == self.entries@[j].1@,
            decreases self.entries@.len() - i,
        {
            entries.push((self.entries[i].0.clone(), copy_bytes(&self.entries[i].1)));
            i = i + 1;
        }
        let copy = Headers { entries };
        assert(copy@ =~= self@);
        copy
    }
}

/// A producer's content type reaches the consumer as it is, whatever else the
/// producer's request holds, unless it is the one that form data has.
pub proof fn law_content_type_is_kept(
    before: Seq<(Seq<char>, Seq<u8>)>,
    value: Seq<u8>,
    after: Seq<(Seq<char>, Seq<u8>)>,
)
    requires
        forall|i: int| 0 <= i < before.len() ==> (#[trigger] before[i]).0 != "content-type"@,
        value != form_urlencoded(),
    ensures
        forwarded_content_type(before.push(("content-type"@, value)) + after) == value,
    decreases before.len(),
{
    let all = before.push(("content-type"@, value)) + after;
    if before.len() > 0 {
        law_content_type_is_kept(before.skip(1), value, after);
        assert(all.skip(1) =~= before.skip(1).push(("content-type"@, value)) + after);
    }
}

/// A producer that names no content type, or that of form data, sends
/// `application/octet-stream`.
pub proof fn law_content_type_defaults(headers: Seq<(Seq<char>, Seq<u8>)>)
    requires
        forall|i: int|
            0 <= i < headers.len() ==> (#[trigger] headers[i]).0 == "content-type"@
                ==> headers[i].1 == form_urlencoded(),
    ensures
        forwarded_content_type(headers) == octet_stream(),
    decreases headers.len(),
{
    if headers.len() > 0 && headers[0].0 != "content-type"@ {
        law_content_type_defaults(headers.skip(1));
    }
}

/// Headers are read as they are: one entry after the other, the name's text and
/// the value's bytes.
pub proof fn law_headers_are_their_entries(headers: Headers)
    ensures
        headers@.len() == headers.entries@.len(),
        forall|i: int|
            0 <= i < headers@.len() ==> (#[trigger] headers@[i]).0 == headers.entries@[i].0@
                && headers@[i].1 == headers.entries@[i].1@,
{
}

/// The value of a header is that of the first entry under its name, whatever
/// follows, and there is none only where no entry has the name.
pub proof fn law_the_first_entry_counts(
    headers: Seq<(Seq<char>, Seq<u8>)>,
    name: Seq<char>,
    i: int,
)
    ensures
        0 <= i < headers.len() && headers[i].0 == name && (forall|j: int|
            0 <= j < i ==> (#[trigger] headers[j]).0 != name) ==> first_value(headers, name)
            == Some(headers[i].1),
        (forall|j: int| 0 <= j < headers.len() ==> (#[trigger] headers[j]).0 != name)
            ==> first_value(headers, name) is None,
    decreases headers.len(),
{
    if headers.len() > 0 && headers[0].0 != name {
        let rest = headers.skip(1);
        law_the_first_entry_counts(rest, name, i - 1);
        assert forall|j: int| 0 <= j < rest.len() implies #[trigger] rest[j] == headers[j + 1] by {
        }
    }
}

/// The content type that a consumer is told is the producer's, byte for byte,
/// whatever parameters it has. Only where the producer names none, or exactly
/// `application/x-www-form-urlencoded`, is it `application/octet-stream`.
pub proof fn law_content_type_byte_for_byte(headers: Seq<(Seq<char>, Seq<u8>)>, i: int)
    ensures
        0 <= i < headers.len() && headers[i].0 == "content-type"@ && (forall|j: int|
            0 <= j < i ==> (#[trigger] headers[j]).0 != "content-type"@) ==> {
            &&& headers[i].1 != encode_utf8("application/x-www-form-urlencoded"@)
                ==> forwarded_content_type(headers) == headers[i].1
            &&& headers[i].1 == encode_utf8("application/x-www-form-urlencoded"@)
                ==> forwarded_content_type(headers) == encode_utf8("application/octet-stream"@)
        },
        (forall|j: int| 0 <= j < headers.len() ==> (#[trigger] headers[j]).0 != "content-type"@)
            ==> forwarded_content_type(headers) == encode_utf8("application/octet-stream"@),
{
    law_the_first_entry_counts(headers, "content-type"@, i);
}

} // verus!
