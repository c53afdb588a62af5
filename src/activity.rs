use vstd::prelude::*;

verus! {

/// The pairs (written name, normalized name) that a JSON object of strings
/// holds, in key order; `None` where the text is not such an object.
pub uninterp spec fn conversion_pairs(json: Seq<char>) -> Option<Seq<(Seq<char>, Seq<char>)>>;

/// Relies on serde_json's `from_str` to read a JSON object of strings into a
/// `BTreeMap<String, String>`; the result depends on the text alone.
#[verifier::external_body]
fn parse_string_object(json: &str) -> (r: Option<Vec<(String, String)>>)
    ensures
        match r {
            Some(v) => conversion_pairs(json@) == Some(v@.map_values(|p: (String, String)| (p.0@, p.1@))),
            None => conversion_pairs(json@) is None,
        },
{
    match serde_json::from_str::<std::collections::BTreeMap<String, String>>(json) {
        Ok(m) => Some(m.into_iter().collect()),
        Err(_) => None,
    }
}

/// The activity type conversions that a JSON object of strings holds, `None`
/// where the text is not one.
pub fn parse_activity_type_conversions(json: &str) -> (r: Option<Vec<(String, String)>>)
    ensures
        match conversion_pairs(json@) {
            Some(p) => r matches Some(v) && v@.map_values(|q: (String, String)| (q.0@, q.1@)) == p,
            None => r is None,
        },
{
    parse_string_object(json)
}

/// The normalized name of the first pair written as `name`, if any.
pub open spec fn lookup(pairs: Seq<(Seq<char>, Seq<char>)>, name: Seq<char>) -> Option<Seq<char>>
    decreases pairs.len(),
{
    if pairs.len() == 0 {
        None
    } else if pairs[0].0 == name {
        Some(pairs[0].1)
    } else {
        lookup(pairs.drop_first(), name)
    }
}

/// The normalized activity type: the conversion of `activity_type` where one
/// is listed, `other` for an empty type, else the type unchanged.
pub open spec fn sanitized(pairs: Seq<(Seq<char>, Seq<char>)>, activity_type: Seq<char>) -> Seq<
    char,
> {
    match lookup(pairs, activity_type) {
        Some(v) => v,
        None => if activity_type.len() == 0 {
            "other"@
        } else {
            activity_type
        },
    }
}

/// Normalizes an activity type with the given conversions.
pub fn sanitize_activity_type(activity_type: &str, conversions: &Vec<(String, String)>) -> (r:
    String)
    ensures
        r@ == sanitized(
            conversions@.map_values(|q: (String, String)| (q.0@, q.1@)),
            activity_type@,
        ),
{
    let ghost pairs = conversions@.map_values(|q: (String, String)| (q.0@, q.1@));
    let name = activity_type.to_string();
    let n = conversions.len();
    let mut i: usize = 0;
    assert(pairs.subrange(0, n as int) =~= pairs);
    while i < n
        invariant
            n == conversions@.len(),
            i <= n,
            name@ == activity_type@,
            pairs == conversions@.map_values(|q: (String, String)| (q.0@, q.1@)),
            lookup(pairs, activity_type@) == lookup(pairs.subrange(i as int, n as int), activity_type@),
        decreases n - i,
    {
        proof {
            let rest = pairs.subrange(i as int, n as int);
            assert(rest[0] == pairs[i as int]);
            assert(rest.drop_first() =~= pairs.subrange(i as int + 1, n as int));
        }
        if conversions[i].0 == name {
            return conversions[i].1.clone();
        }
        i = i + 1;
    }
    proof {
        assert(pairs.subrange(n as int, n as int).len() == 0);
    }
    if activity_type.is_empty() {
        "other".to_string()
    } else {
        name
    }
}

} // verus!
