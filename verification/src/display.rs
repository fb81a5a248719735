//! What the console banner and feature line say.

use vstd::prelude::*;
use vstd::string::StringExecFns;

verus! {

/// The parts joined with `sep` between neighbours.
pub open spec fn join_with(parts: Seq<Seq<char>>, sep: Seq<char>) -> Seq<char>
    decreases parts.len(),
{
    if parts.len() == 0 {
        Seq::empty()
    } else if parts.len() == 1 {
        parts[0]
    } else {
        join_with(parts.drop_last(), sep) + sep + parts.last()
    }
}

/// The protocol features compiled in, in display order.
pub open spec fn feature_names() -> Seq<Seq<char>> {
    seq!["Java"@, "Web"@]
}

/// The console display of the proxy.
pub struct EnderDisplay;

impl EnderDisplay {
    /// The names of the protocol features compiled in: Java and Web.
    pub fn active_features() -> (r: Vec<&'static str>)
        ensures
            r@.map_values(|f: &'static str| f@) == feature_names(),
    {
        let r: Vec<&'static str> = vec!["Java", "Web"];
        assert(r@.map_values(|f: &'static str| f@) =~= feature_names());
        r
    }

    /// The feature line: the active features joined with ", ", or `None`
    /// when there are none (then nothing is shown).
    pub fn features_line() -> (r: Option<String>)
        ensures
            feature_names().len() == 0 ==> r is None,
            feature_names().len() > 0 ==> (r matches Some(s) && s@ == join_with(feature_names(), ", "@)),
    {
        let features = Self::active_features();
        let ghost names = features@.map_values(|f: &'static str| f@);
        if features.len() == 0 {
            return None;
        }
        let mut line = features[0].to_owned();
        let mut i: usize = 1;
        assert(names.take(1) =~= seq![names[0]]);
        while i < features.len()
            invariant
                1 <= i <= features@.len(),
                names == features@.map_values(|f: &'static str| f@),
                line@ == join_with(names.take(i as int), ", "@),
            decreases features@.len() - i,
        {
            line.append(", ");
            line.append(features[i]);
            assert(names.take(i + 1).drop_last() =~= names.take(i as int));
            i = i + 1;
        }
        assert(names.take(i as int) =~= names);
        Some(line)
    }
}

} // verus!
