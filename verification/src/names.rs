//! Names as the world data writes them: percent-encoded form text.

use vstd::prelude::*;
use vstd::string::StringExecFns;

verus! {

/// The pairs of name and value that `form_urlencoded::parse` reads from the
/// UTF-8 bytes of `text`, in the order in which it yields them.
pub uninterp spec fn form_pairs(text: Seq<char>) -> Seq<(Seq<char>, Seq<char>)>;

/// A list of pairs of strings as a list of pairs of their contents.
pub open spec fn pair_views(pairs: Seq<(String, String)>) -> Seq<(Seq<char>, Seq<char>)> {
    pairs.map_values(|pair: (String, String)| (pair.0@, pair.1@))
}

/// All names and values of `pairs`, written one after another.
pub open spec fn joined_pairs(pairs: Seq<(Seq<char>, Seq<char>)>) -> Seq<char>
    decreases pairs.len(),
{
    if pairs.len() == 0 {
        Seq::empty()
    } else {
        joined_pairs(pairs.drop_last()) + pairs.last().0 + pairs.last().1
    }
}

/// The name that the encoded `text` stands for: whatever form decoding finds
/// in it, written one after another.
pub open spec fn decoded_name(text: Seq<char>) -> Seq<char> {
    joined_pairs(form_pairs(text))
}

/// Calls `form_urlencoded::parse` on the bytes of `text` and collects the
/// pairs it yields, each converted to owned strings with `into_owned`.
///
/// The contract only gives the outcome its name, [`form_pairs`]: the parser
/// is a function of the bytes alone.
#[verifier::external_body]
fn parse_form(text: &str) -> (pairs: Vec<(String, String)>)
    ensures
        pair_views(pairs@) == form_pairs(text@),
{
    form_urlencoded::parse(text.as_bytes()).into_owned().collect()
}

/// Writes all names and values of `pairs` one after another.
pub fn join_pairs(pairs: &Vec<(String, String)>) -> (joined: String)
    ensures
        joined@ == joined_pairs(pair_views(pairs@)),
{
    let mut joined = String::new();
    assert(pair_views(pairs@).take(0) =~= Seq::empty());
    for i in 0..pairs.len()
        invariant
            joined@ == joined_pairs(pair_views(pairs@).take(i as int)),
    {
        joined.append(pairs[i].0.as_str());
        joined.append(pairs[i].1.as_str());
        proof {
            let upto = pair_views(pairs@).take(i + 1);
            assert(upto.drop_last() =~= pair_views(pairs@).take(i as int));
            assert(upto.last() == (pairs@[i as int].0@, pairs@[i as int].1@));
        }
    }
    assert(pair_views(pairs@).take(pairs.len() as int) =~= pair_views(pairs@));
    joined
}

/// Decodes the encoded name `text`.
pub fn decode_name(text: &str) -> (name: String)
    ensures
        name@ == decoded_name(text@),
{
    let pairs = parse_form(text);
    join_pairs(&pairs)
}

} // verus!
