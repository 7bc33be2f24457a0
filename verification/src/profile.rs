//! Build profiles: the named output configurations a project declares, and
//! the selection of one by name or by its default flag.

use vstd::prelude::*;

verus! {

/// One build profile: whether it is the default, its name, and its output
/// directory.
#[derive(Debug)]
pub struct ConfigBuild {
    pub default: bool,
    pub name: String,
    pub out: String,
}

/// The mathematical model of a build profile.
#[verifier::ext_equal]
pub struct SpecConfigBuild {
    pub default: bool,
    pub name: Seq<char>,
    pub out: Seq<char>,
}

impl View for ConfigBuild {
    type V = SpecConfigBuild;

    open spec fn view(&self) -> SpecConfigBuild {
        SpecConfigBuild { default: self.default, name: self.name@, out: self.out@ }
    }
}

/// A project configuration: its build profiles, in declaration order.
#[derive(Debug)]
pub struct Config {
    pub build: Vec<ConfigBuild>,
}

/// The model of a profile list.
pub open spec fn builds_view(v: Seq<ConfigBuild>) -> Seq<SpecConfigBuild> {
    Seq::new(v.len(), |i: int| v[i]@)
}

/// Whether profile `b` is selected: by name when one is asked for, else by
/// its default flag.
pub open spec fn build_matches(b: SpecConfigBuild, name: Option<Seq<char>>) -> bool {
    match name {
        Some(n) => b.name == n,
        None => b.default,
    }
}

/// Index of the first matching profile at `i` or later.
pub open spec fn find_build_from(
    builds: Seq<SpecConfigBuild>,
    name: Option<Seq<char>>,
    i: int,
) -> Option<int>
    decreases builds.len() - i,
    when 0 <= i
{
    if i >= builds.len() {
        None
    } else if build_matches(builds[i], name) {
        Some(i)
    } else {
        find_build_from(builds, name, i + 1)
    }
}

/// Selects a build profile: the first whose name matches the requested one,
/// or, with no request, the first marked default. `None` when no profile
/// qualifies.
pub fn get_build(config: &Config, build_name: Option<&String>) -> (r: Option<ConfigBuild>)
    ensures
        ({
            let sel = match build_name {
                Some(n) => Some(n@),
                None => None,
            };
            match r {
                Some(b) => {
                    &&& find_build_from(builds_view(config.build@), sel, 0) matches Some(f)
                    &&& 0 <= f < config.build@.len()
                    &&& b@ == builds_view(config.build@)[f]
                },
                None => find_build_from(builds_view(config.build@), sel, 0) is None,
            }
        }),
{
    let ghost bv = builds_view(config.build@);
    let ghost sel: Option<Seq<char>> = match build_name {
        Some(n) => Some(n@),
        None => None,
    };
    let mut i: usize = 0;
    while i < config.build.len()
        invariant
            bv == builds_view(config.build@),
            sel == (match build_name {
                Some(n) => Some(n@),
                None => None::<Seq<char>>,
            }),
            i <= config.build@.len(),
            find_build_from(bv, sel, 0) == find_build_from(bv, sel, i as int),
        decreases config.build@.len() - i,
    {
        let b = &config.build[i];
        let matched = match build_name {
            Some(n) => crate::strutil::str_eq(b.name.as_str(), n.as_str()),
            None => b.default,
        };
        proof {
            assert(bv[i as int] == config.build@[i as int]@);
            assert(matched == build_matches(bv[i as int], sel));
        }
        if matched {
            let picked = ConfigBuild { default: b.default, name: b.name.clone(), out: b.out.clone() };
            proof {
                assert(picked@ =~= bv[i as int]);
            }
            return Some(picked);
        }
        i += 1;
    }
    None
}

} // verus!
