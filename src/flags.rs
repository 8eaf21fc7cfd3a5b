//! The CPU and feature settings that the build tool's own flags request.
use vstd::prelude::*;

use crate::response_file::joined;
use crate::text::{replace_all, replaced, str_eq};

verus! {

/// The `-C` codegen options, as `(name, value)`, that the `rustflags` crate
/// reads from an encoded flag string; `None` for each flag of another kind.
pub uninterp spec fn codegen_options(encoded: Seq<char>) -> Seq<Option<(Seq<char>, Option<Seq<char>>)>>;

/// The view of a codegen option as read.
pub open spec fn option_view(o: Option<(String, Option<String>)>) -> Option<(Seq<char>, Option<Seq<char>>)> {
    match o {
        Some((k, v)) => Some((
            k@,
            match v {
                Some(s) => Some(s@),
                None => None,
            },
        )),
        None => None,
    }
}

/// Relies on `rustflags::from_encoded`: the flags of an encoded flag string,
/// with the name and value of each codegen option.
#[verifier::external_body]
fn read_flags(encoded: &str) -> (r: Vec<Option<(String, Option<String>)>>)
    ensures
        r@.map_values(|o: Option<(String, Option<String>)>| option_view(o)) == codegen_options(encoded@),
{
    rustflags::from_encoded(encoded.as_ref())
        .map(|f| match f {
            rustflags::Flag::Codegen { opt, value } => Some((opt, value)),
            _ => None,
        })
        .collect()
}

/// The CPU and the target features that codegen options set.
#[derive(Debug, Default, PartialEq, Eq)]
pub struct TargetFlags {
    pub target_cpu: String,
    pub target_feature: String,
}

/// The CPU set by the options: the last `target-cpu` (or `target_cpu`) with a value.
pub open spec fn cpu_of(opts: Seq<Option<(Seq<char>, Option<Seq<char>>)>>) -> Seq<char>
    decreases opts.len(),
{
    if opts.len() == 0 {
        seq![]
    } else {
        match opts.last() {
            Some((k, Some(v))) => if replaced(k, "-"@, "_"@) == "target_cpu"@ {
                v
            } else {
                cpu_of(opts.drop_last())
            },
            _ => cpu_of(opts.drop_last()),
        }
    }
}

/// The values of every `target-feature` option, in order.
pub open spec fn features_of(opts: Seq<Option<(Seq<char>, Option<Seq<char>>)>>) -> Seq<Seq<char>>
    decreases opts.len(),
{
    if opts.len() == 0 {
        seq![]
    } else {
        match opts.last() {
            Some((k, Some(v))) => if replaced(k, "-"@, "_"@) == "target_feature"@ {
                features_of(opts.drop_last()).push(v)
            } else {
                features_of(opts.drop_last())
            },
            _ => features_of(opts.drop_last()),
        }
    }
}

/// Features lists joined with commas, skipping the empty start.
pub open spec fn feature_text(features: Seq<Seq<char>>) -> Seq<char>
    decreases features.len(),
{
    if features.len() == 0 {
        seq![]
    } else {
        let pre = feature_text(features.drop_last());
        if pre.len() == 0 {
            features.last()
        } else {
            pre + ","@ + features.last()
        }
    }
}

impl TargetFlags {
    /// Reads the CPU and target features from an encoded flag string: the
    /// last CPU wins, features accumulate separated by commas.
    pub fn parse_from_encoded(encoded: &str) -> (r: Self)
        ensures
            ({
                let opts = codegen_options(encoded@);
                r.target_cpu@ == cpu_of(opts) && r.target_feature@ == feature_text(features_of(opts))
            }),
    {
        proof {
            reveal_strlit("-");
        }
        let flags = read_flags(encoded);
        let ghost opts = codegen_options(encoded@);
        let mut cpu = String::new();
        let mut feature = String::new();
        let mut i: usize = 0;
        assert(opts.take(0) =~= Seq::<Option<(Seq<char>, Option<Seq<char>>)>>::empty());
        while i < flags.len()
            invariant
                i <= flags@.len(),
                "-"@ == seq!['-'],
                opts == flags@.map_values(|o: Option<(String, Option<String>)>| option_view(o)),
                cpu@ == cpu_of(opts.take(i as int)),
                feature@ == feature_text(features_of(opts.take(i as int))),
            decreases flags@.len() - i,
        {
            assert(opts.take(i + 1).drop_last() =~= opts.take(i as int));
            assert(opts.take(i + 1).last() == option_view(flags@[i as int]));
            proof {
                reveal_strlit("target_cpu");
                reveal_strlit("target_feature");
                assert("target_cpu"@[7] != "target_feature"@[7]);
            }
            match &flags[i] {
                Some((opt, Some(value))) => {
                    let key = replace_all(opt.as_str(), "-", "_");
                    if str_eq(key.as_str(), "target_cpu") {
                        cpu = value.clone();
                    } else if str_eq(key.as_str(), "target_feature") {
                        let ghost fs = features_of(opts.take(i as int));
                        assert(features_of(opts.take(i + 1)) == fs.push(value@));
                        assert(fs.push(value@).drop_last() =~= fs);
                        if feature.as_str().unicode_len() > 0 {
                            feature.append(",");
                        }
                        feature.append(value.as_str());
                        assert(feature@ =~= feature_text(fs.push(value@)));
                    }
                },
                _ => {},
            }
            i = i + 1;
        }
        assert(opts.take(flags@.len() as int) =~= opts);
        TargetFlags { target_cpu: cpu, target_feature: feature }
    }
}

} // verus!
