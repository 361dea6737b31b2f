//! The scripting transform's configuration surface. The script engine
//! itself is an external collaborator; only the configuration shape and
//! its fixed answers live here.

use vstd::prelude::*;

verus! {

/// What kind of events a source, transform or sink handles.
#[derive(Clone, Copy, Debug, PartialEq, Eq)]
pub enum DataType {
    Log,
    Metric,
    Any,
}

#[derive(Clone, Debug)]
pub struct LuaConfig {
    pub search_dirs: Vec<String>,
    pub hooks: HooksConfig,
    pub timers: Vec<TimerConfig>,
    pub source: Option<String>,
}

#[derive(Clone, Debug)]
pub struct HooksConfig {
    pub init: Option<String>,
    pub process: String,
    pub shutdown: Option<String>,
}

#[derive(Clone, Debug)]
pub struct TimerConfig {
    pub interval_seconds: u64,
    pub handler: String,
}

impl LuaConfig {
    pub fn input_type(&self) -> (r: DataType)
        ensures
            r == DataType::Any,
    {
        DataType::Any
    }

    pub fn output_type(&self) -> (r: DataType)
        ensures
            r == DataType::Any,
    {
        DataType::Any
    }

    pub fn transform_type(&self) -> (r: &'static str)
        ensures
            r@ == "lua"@,
    {
        "lua"
    }
}

/// The directories scripts may be loaded from: each configuration file's
/// own directory, which is its path shorn of the final `/` component.
pub fn default_config_paths(config_paths: &Vec<String>) -> (r: Vec<String>)
    ensures
        r@.len() == config_paths@.len(),
        forall|i: int|
            0 <= i < r@.len() ==> (#[trigger] r@[i])@ == parent_of((config_paths@[i])@),
{
    let n = config_paths.len();
    let mut out: Vec<String> = Vec::new();
    let mut i: usize = 0;
    while i < n
        invariant
            n == config_paths@.len(),
            i <= n,
            out@.len() == i,
            forall|j: int|
                0 <= j < i ==> (#[trigger] out@[j])@ == parent_of((config_paths@[j])@),
        decreases n - i,
    {
        let p = parent_dir(&config_paths[i]);
        out.push(p);
        i = i + 1;
    }
    out
}

/// The path shorn of its final `/`-separated component; a path without a
/// separator becomes empty.
pub open spec fn parent_of(s: Seq<char>) -> Seq<char> {
    if last_slash(s) == -1 {
        Seq::empty()
    } else {
        s.take(last_slash(s))
    }
}

/// Index of the last `/` in `s`, or `-1`.
pub open spec fn last_slash(s: Seq<char>) -> int
    decreases s.len(),
{
    if s.len() == 0 {
        -1
    } else if s[s.len() - 1] == '/' {
        s.len() - 1
    } else {
        last_slash(s.drop_last())
    }
}

fn parent_dir(s: &String) -> (r: String)
    ensures
        r@ == parent_of(s@),
{
    let n = s.as_str().unicode_len();
    let mut i: usize = n;
    proof {
        assert(s@.take(n as int) =~= s@);
    }
    while i > 0
        invariant
            n == s@.len(),
            i <= n,
            last_slash(s@) == last_slash(s@.take(i as int)),
        decreases i,
    {
        proof {
            assert(s@.take(i as int).drop_last() =~= s@.take(i - 1));
        }
        if s.as_str().get_char(i - 1) == '/' {
            proof {
                assert(s@.take(i as int)[i - 1] == s@[i - 1]);
                assert(last_slash(s@.take(i as int)) == i - 1);
            }
            let r = s.as_str().substring_char(0, i - 1).to_owned();
            proof {
                assert(r@ =~= s@.take(i - 1));
                assert(parent_of(s@) == s@.take(i - 1));
            }
            return r;
        }
        proof {
            assert(s@.take(i as int)[i - 1] == s@[i - 1]);
        }
        i = i - 1;
    }
    proof {
        assert(s@.take(0) =~= Seq::<char>::empty());
        assert(last_slash(s@) == -1);
    }
    String::new()
}

} // verus!
