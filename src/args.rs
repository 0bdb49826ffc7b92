//! Command-line handling: the optional `--path <value>` flag.
use vstd::prelude::*;

verus! {

/// The scan root used when no `--path` value is given.
pub open spec fn default_path() -> Seq<char> {
    seq!['/']
}

/// What the command line asks for.
pub struct Config {
    /// Directory to scan.
    pub custom_path: String,
    /// Set when `--path` was the last argument, so its value was missing and
    /// the default root is used.
    pub missing_path_value: bool,
}

/// Index of the first element of `v` equal to `target`, if any.
pub open spec fn first_index_of(v: Seq<String>, target: Seq<char>) -> int {
    if exists|i: int| 0 <= i < v.len() && v[i]@ == target {
        choose|i: int|
            0 <= i < v.len() && v[i]@ == target && forall|k: int| 0 <= k < i ==> v[k]@ != target
    } else {
        -1
    }
}

/// Position of the first element of `input_vec` equal to `target`, or -1
/// when there is none.
pub fn get_ind(input_vec: &Vec<String>, target: String) -> (r: i32)
    requires
        input_vec.len() <= i32::MAX,
    ensures
        -1 <= r < input_vec.len(),
        r == -1 <==> forall|k: int| 0 <= k < input_vec.len() ==> input_vec@[k]@ != target@,
        r >= 0 ==> input_vec@[r as int]@ == target@,
        r >= 0 ==> forall|k: int| 0 <= k < r ==> input_vec@[k]@ != target@,
{
    let mut i: usize = 0;
    while i < input_vec.len()
        invariant
            i <= input_vec.len() <= i32::MAX,
            forall|k: int| 0 <= k < i ==> input_vec@[k]@ != target@,
        decreases input_vec.len() - i,
    {
        if input_vec[i] == target {
            return i as i32;
        }
        i = i + 1;
    }
    -1
}

/// Reads the scan root from the argument list: the element after the first
/// `--path`, or `/` when there is no such flag or it has no value after it.
/// Other arguments are ignored.
pub fn parse_args(args: &Vec<String>) -> (r: Config)
    requires
        args.len() <= i32::MAX,
    ensures
        r.missing_path_value <==> args.len() > 0 && first_index_of(args@, path_flag()) == args.len() - 1,
        ({
            let i = first_index_of(args@, path_flag());
            if i == -1 || i == args.len() - 1 {
                r.custom_path@ == default_path()
            } else {
                r.custom_path@ == args@[i + 1]@
            }
        }),
{
    let flag = String::from_str("--path");
    proof {
        reveal_strlit("--path");
        reveal_strlit("/");
        assert(flag@ =~= path_flag());
    }
    let path_ind = get_ind(args, flag);
    proof {
        lemma_first_index_of(args@, path_flag(), path_ind as int);
    }
    if path_ind == -1 {
        Config { custom_path: String::from_str("/"), missing_path_value: false }
    } else if path_ind as usize == args.len() - 1 {
        Config { custom_path: String::from_str("/"), missing_path_value: true }
    } else {
        Config { custom_path: args[path_ind as usize + 1].clone(), missing_path_value: false }
    }
}

/// The flag that names the scan root.
pub open spec fn path_flag() -> Seq<char> {
    seq!['-', '-', 'p', 'a', 't', 'h']
}

proof fn lemma_first_index_of(v: Seq<String>, target: Seq<char>, r: int)
    requires
        -1 <= r < v.len(),
        r == -1 <==> forall|k: int| 0 <= k < v.len() ==> v[k]@ != target,
        r >= 0 ==> v[r]@ == target,
        r >= 0 ==> forall|k: int| 0 <= k < r ==> v[k]@ != target,
    ensures
        first_index_of(v, target) == r,
{
    if r >= 0 {
        let c = first_index_of(v, target);
        assert(v[r]@ == target);
        if c < r {
            assert(v[c]@ != target);
        } else if c > r {
            assert(v[r]@ != target);
        }
    }
}

} // verus!
