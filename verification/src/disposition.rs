//! The file name that a download announces in its `Content-Disposition`
//! header.
use vstd::prelude::*;
use crate::outside::{disposition_params, parse_disposition_params};
use crate::text::{opt_text, same_text};

verus! {

/// The value of the first parameter called `name`.
pub open spec fn param_value(params: Seq<(Seq<char>, Seq<char>)>, name: Seq<char>) -> Option<
    Seq<char>,
>
    decreases params.len(),
{
    if params.len() == 0 {
        None
    } else if params[0].0 == name {
        Some(params[0].1)
    } else {
        param_value(params.drop_first(), name)
    }
}

/// A parameter's value is that of its lowest-indexed occurrence: whatever
/// the index, a parameter of that name with none before it gives the value.
pub proof fn lemma_param_value_is_lowest(params: Seq<(Seq<char>, Seq<char>)>, name: Seq<char>, i: int)
    requires
        0 <= i < params.len(),
        params[i].0 == name,
        forall|j: int| 0 <= j < i ==> (#[trigger] params[j]).0 != name,
    ensures
        param_value(params, name) == Some(params[i].1),
    decreases i,
{
    if i > 0 {
        let rest = params.drop_first();
        assert forall|j: int| 0 <= j < i - 1 implies (#[trigger] rest[j]).0 != name by {
            assert(rest[j] == params[j + 1]);
        }
        lemma_param_value_is_lowest(rest, name, i - 1);
    }
}

/// Without a parameter of that name there is no value.
pub proof fn lemma_param_value_none(params: Seq<(Seq<char>, Seq<char>)>, name: Seq<char>)
    requires
        forall|j: int| 0 <= j < params.len() ==> (#[trigger] params[j]).0 != name,
    ensures
        param_value(params, name) is None,
    decreases params.len(),
{
    if params.len() > 0 {
        let rest = params.drop_first();
        assert forall|j: int| 0 <= j < rest.len() implies (#[trigger] rest[j]).0 != name by {
            assert(rest[j] == params[j + 1]);
        }
        lemma_param_value_none(rest, name);
    }
}

/// The file name of a download: the `filename` parameter of its
/// `Content-Disposition` header, given as text; none without the header or
/// the parameter.
pub fn guess_filename(header: Option<&str>) -> (name: Option<String>)
    ensures
        opt_text(name) == match header {
            Some(h) => param_value(disposition_params(h@), "filename"@),
            None => None,
        },
{
    let h = match header {
        Some(h) => h,
        None => {
            return None;
        },
    };
    let params = parse_disposition_params(h);
    let ghost all = params@.map_values(|p: (String, String)| (p.0@, p.1@));
    let mut i: usize = 0;
    assert(all.skip(0) == all);
    while i < params.len()
        invariant
            header == Some(h),
            all == params@.map_values(|p: (String, String)| (p.0@, p.1@)),
            all == disposition_params(h@),
            i <= params@.len(),
            param_value(all, "filename"@) == param_value(all.skip(i as int), "filename"@),
        decreases params@.len() - i,
    {
        assert(all.skip(i as int)[0] == all[i as int]);
        proof {
            reveal_strlit("filename");
        }
        if same_text(params[i].0.as_str(), "filename") {
            return Some(params[i].1.clone());
        }
        assert(all.skip(i as int).drop_first() == all.skip(i + 1));
        i = i + 1;
    }
    assert(all.skip(i as int).len() == 0);
    None
}

} // verus!
