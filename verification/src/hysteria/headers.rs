//! Header fields of requests and answers.

use vstd::prelude::*;

use crate::text::same_text;

verus! {

/// Header fields: names and values.
pub type Headers = Vec<(String, String)>;

/// The contents of header fields.
pub open spec fn header_views(headers: Seq<(String, String)>) -> Seq<(Seq<char>, Seq<char>)> {
    Seq::new(headers.len(), |i: int| (headers[i].0@, headers[i].1@))
}

/// The value of the first field of that name.
pub open spec fn header_value(headers: Seq<(Seq<char>, Seq<char>)>, name: Seq<char>) -> Option<
    Seq<char>,
>
    decreases headers.len(),
{
    if headers.len() == 0 {
        None
    } else if headers[0].0 == name {
        Some(headers[0].1)
    } else {
        header_value(headers.skip(1), name)
    }
}

/// The value of the first field of that name.
pub fn find_header<'a>(headers: &'a Headers, name: &str) -> (r: Option<&'a str>)
    ensures
        match r {
            Some(s) => header_value(header_views(headers@), name@) == Some(s@),
            None => header_value(header_views(headers@), name@) is None,
        },
{
    let mut i: usize = 0;
    let ghost views = header_views(headers@);
    assert(views.skip(0) =~= views);
    while i < headers.len()
        invariant
            i <= headers@.len(),
            views == header_views(headers@),
            header_value(views.skip(i as int), name@) == header_value(views, name@),
        decreases headers@.len() - i,
    {
        assert(views.skip(i as int)[0] == views[i as int]);
        if same_text(headers[i].0.as_str(), name) {
            return Some(headers[i].1.as_str());
        }
        assert(views.skip(i as int).skip(1) =~= views.skip(i + 1));
        i += 1;
    }
    None
}

/// A copy of header fields.
pub fn copy_headers(headers: &Headers) -> (out: Headers)
    ensures
        header_views(out@) == header_views(headers@),
{
    let mut out: Headers = Vec::new();
    let mut i: usize = 0;
    while i < headers.len()
        invariant
            i <= headers@.len(),
            header_views(out@) == header_views(headers@).take(i as int),
        decreases headers@.len() - i,
    {
        push_header(&mut out, headers[i].0.as_str(), headers[i].1.as_str());
        i += 1;
        assert(header_views(out@) =~= header_views(headers@).take(i as int));
    }
    assert(header_views(headers@).take(i as int) =~= header_views(headers@));
    out
}

/// Adds a field.
pub fn push_header(headers: &mut Headers, name: &str, value: &str)
    ensures
        header_views(final(headers)@) == header_views(old(headers)@).push((name@, value@)),
{
    headers.push((name.to_owned(), value.to_owned()));
    assert(header_views(headers@) =~= header_views(old(headers)@).push((name@, value@)));
}

/// The first field of a name counts: the value of a field is found where no
/// field before it has the same name.
pub proof fn law_first_field_counts(headers: Seq<(Seq<char>, Seq<char>)>, i: int)
    requires
        0 <= i < headers.len(),
        forall|j: int| 0 <= j < i ==> (#[trigger] headers[j]).0 != headers[i].0,
    ensures
        header_value(headers, headers[i].0) == Some(headers[i].1),
    decreases headers.len(),
{
    if i > 0 {
        let rest = headers.skip(1);
        assert(headers[0].0 != headers[i].0);
        assert forall|j: int| 0 <= j < i - 1 implies (#[trigger] rest[j]).0 != rest[i - 1].0 by {
            assert(headers[j + 1].0 != headers[i].0);
        }
        law_first_field_counts(rest, i - 1);
    }
}

/// There is no value for a name that no field has.
pub proof fn law_missing_field_has_no_value(
    headers: Seq<(Seq<char>, Seq<char>)>,
    name: Seq<char>,
)
    requires
        forall|j: int| 0 <= j < headers.len() ==> (#[trigger] headers[j]).0 != name,
    ensures
        header_value(headers, name) is None,
    decreases headers.len(),
{
    if headers.len() > 0 {
        let rest = headers.skip(1);
        assert(headers[0].0 != name);
        assert forall|j: int| 0 <= j < rest.len() implies (#[trigger] rest[j]).0 != name by {
            assert(headers[j + 1].0 != name);
        }
        law_missing_field_has_no_value(rest, name);
    }
}

} // verus!
