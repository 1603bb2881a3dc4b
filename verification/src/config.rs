//! The resolved configuration for a search run, and a small command-line
//! argument parser that fills it in: two positional arguments (the query
//! and the file path), short and long flags for the case, line-number and
//! word options, and valued options for the two context counts.

use vstd::prelude::*;
use vstd::string::StrSliceExecFns;

verus! {

/// All parameters of a search run: the query string, the file path, and
/// the option flags. Context counts of `None` mean zero lines of context.
pub struct Config {
    /// The string pattern to search for within the specified file.
    pub query: String,
    /// The path to the file where the search operation will be performed.
    pub file_path: String,
    /// Enables case-insensitive searching.
    pub ignore_case: bool,
    /// Prefixes each printed line with its line number.
    pub line_number: bool,
    /// Restricts matches to whole words.
    pub word_regexp: bool,
    /// How many lines to print before a matching line.
    pub before_context: Option<usize>,
    /// How many lines to print after a matching line.
    pub after_context: Option<usize>,
}

/// The mathematical form of a configuration.
pub struct ConfigModel {
    pub query: Seq<char>,
    pub file_path: Seq<char>,
    pub ignore_case: bool,
    pub line_number: bool,
    pub word_regexp: bool,
    pub before_context: Option<usize>,
    pub after_context: Option<usize>,
}

impl View for Config {
    type V = ConfigModel;

    open spec fn view(&self) -> ConfigModel {
        ConfigModel {
            query: self.query@,
            file_path: self.file_path@,
            ignore_case: self.ignore_case,
            line_number: self.line_number,
            word_regexp: self.word_regexp,
            before_context: self.before_context,
            after_context: self.after_context,
        }
    }
}

/// The configuration before any argument is read: empty strings, no flags,
/// no context.
pub open spec fn spec_default_model() -> ConfigModel {
    ConfigModel {
        query: Seq::empty(),
        file_path: Seq::empty(),
        ignore_case: false,
        line_number: false,
        word_regexp: false,
        before_context: None,
        after_context: None,
    }
}

/// The value of a digit string read in base ten.
pub open spec fn spec_digits_val(s: Seq<char>) -> int
    decreases s.len(),
{
    if s.len() == 0 {
        0
    } else {
        spec_digits_val(s.drop_last()) * 10 + (s.last() as int - 48)
    }
}

/// Whether every character of `s` is a decimal digit.
pub open spec fn spec_all_digits(s: Seq<char>) -> bool {
    forall|i: int| 0 <= i < s.len() ==> 48 <= (#[trigger] s[i]) as int <= 57
}

/// The number a non-negative decimal string denotes: defined exactly when
/// the string is non-empty, all digits, and its value fits the machine.
pub open spec fn spec_parse_usize(s: Seq<char>) -> Option<usize> {
    if s.len() > 0 && spec_all_digits(s) && spec_digits_val(s) <= usize::MAX as int {
        Some(spec_digits_val(s) as usize)
    } else {
        None
    }
}

/// A longer prefix of a digit string never denotes a smaller value.
proof fn lemma_digits_val_monotone(s: Seq<char>, i: int)
    requires
        0 <= i <= s.len(),
        spec_all_digits(s),
    ensures
        0 <= spec_digits_val(s.take(i)) <= spec_digits_val(s),
    decreases s.len(),
{
    if s.len() == 0 {
        assert(s.take(i) =~= s);
    } else {
        let pre = s.drop_last();
        assert(spec_all_digits(pre)) by {
            assert(forall|j: int| 0 <= j < pre.len() ==> pre[j] == s[j]);
        }
        let ip = if i <= pre.len() {
            i
        } else {
            pre.len() as int
        };
        lemma_digits_val_monotone(pre, ip);
        if i <= pre.len() {
            assert(s.take(i) =~= pre.take(i));
        } else {
            assert(s.take(i) =~= s);
        }
    }
}

/// Relies on `str`'s `==` (its `PartialEq`): equality of the character
/// contents.
#[verifier::external_body]
fn str_eq(a: &str, b: &str) -> (r: bool)
    ensures
        r == (a@ == b@),
{
    a == b
}

/// Reads a non-negative decimal number, rejecting empty input, any
/// non-digit character, and values that do not fit the machine.
pub fn parse_usize(s: &str) -> (r: Option<usize>)
    ensures
        r == spec_parse_usize(s@),
{
    let len = s.unicode_len();
    let mut val: usize = 0;
    let mut i: usize = 0;
    while i < len
        invariant
            i <= len,
            len == s@.len(),
            spec_all_digits(s@.take(i as int)),
            val as int == spec_digits_val(s@.take(i as int)),
        decreases len - i,
    {
        let c = s.get_char(i);
        let d = c as u32;
        if d < 48 || d > 57 {
            proof {
                assert(!spec_all_digits(s@));
            }
            return None;
        }
        let step = match val.checked_mul(10) {
            Some(v) => v.checked_add((d - 48) as usize),
            None => None,
        };
        proof {
            assert(s@.take(i + 1).drop_last() =~= s@.take(i as int));
            assert(s@.take(i + 1).last() == s@[i as int]);
            assert(spec_all_digits(s@.take(i + 1)));
        }
        match step {
            Some(v) => {
                val = v;
            },
            None => {
                proof {
                    if spec_all_digits(s@) {
                        lemma_digits_val_monotone(s@, i + 1);
                        assert(spec_digits_val(s@) > usize::MAX as int);
                    }
                }
                return None;
            },
        }
        i = i + 1;
    }
    proof {
        assert(s@.take(len as int) =~= s@);
    }
    if len == 0 {
        None
    } else {
        Some(val)
    }
}

/// One pass over the arguments after the program name: flags set their
/// options, a valued option consumes the following argument as a number,
/// anything else that starts with a dash is unknown, and the remaining
/// arguments fill the two positional slots in order. `None` is any
/// rejection; otherwise the filled configuration and how many positional
/// slots were filled.
pub open spec fn spec_parse_args(
    args: Seq<Seq<char>>,
    acc: ConfigModel,
    positionals: int,
) -> Option<(ConfigModel, int)>
    decreases args.len(),
{
    if args.len() == 0 {
        Some((acc, positionals))
    } else {
        let a0 = args[0];
        let rest = args.drop_first();
        if a0 == "-i"@ || a0 == "--ignore-case"@ {
            spec_parse_args(rest, ConfigModel { ignore_case: true, ..acc }, positionals)
        } else if a0 == "-l"@ || a0 == "--line-number"@ {
            spec_parse_args(rest, ConfigModel { line_number: true, ..acc }, positionals)
        } else if a0 == "-w"@ || a0 == "--word-regexp"@ {
            spec_parse_args(rest, ConfigModel { word_regexp: true, ..acc }, positionals)
        } else if a0 == "-B"@ || a0 == "--before-context"@ {
            if rest.len() == 0 {
                None
            } else {
                match spec_parse_usize(rest[0]) {
                    Some(n) => spec_parse_args(
                        rest.drop_first(),
                        ConfigModel { before_context: Some(n), ..acc },
                        positionals,
                    ),
                    None => None,
                }
            }
        } else if a0 == "-A"@ || a0 == "--after-context"@ {
            if rest.len() == 0 {
                None
            } else {
                match spec_parse_usize(rest[0]) {
                    Some(n) => spec_parse_args(
                        rest.drop_first(),
                        ConfigModel { after_context: Some(n), ..acc },
                        positionals,
                    ),
                    None => None,
                }
            }
        } else if a0.len() >= 2 && a0[0] == '-' {
            None
        } else if positionals == 0 {
            spec_parse_args(rest, ConfigModel { query: a0, ..acc }, 1)
        } else if positionals == 1 {
            spec_parse_args(rest, ConfigModel { file_path: a0, ..acc }, 2)
        } else {
            None
        }
    }
}

/// The mathematical form of an argument list.
pub open spec fn args_model(args: Seq<&str>) -> Seq<Seq<char>> {
    args.map_values(|t: &str| t@)
}

/// What parsing a full argument list yields: the first argument is the
/// program name and is skipped; parsing succeeds exactly when every
/// argument is accepted and both positional slots are filled.
pub open spec fn spec_parse(args: Seq<Seq<char>>) -> Option<ConfigModel> {
    if args.len() == 0 {
        None
    } else {
        match spec_parse_args(args.drop_first(), spec_default_model(), 0) {
            Some((c, p)) => if p == 2 {
                Some(c)
            } else {
                None
            },
            None => None,
        }
    }
}

impl Config {
    /// The number of before-context lines a run must keep, with absence
    /// meaning none.
    pub open spec fn spec_before(self) -> usize {
        match self.before_context {
            Some(n) => n,
            None => 0,
        }
    }

    /// The number of after-context lines a run owes, with absence meaning
    /// none.
    pub open spec fn spec_after(self) -> usize {
        match self.after_context {
            Some(n) => n,
            None => 0,
        }
    }

    /// Parses a full argument list, program name first. Returns `None`
    /// exactly when the list is rejected: an unknown flag, a context
    /// option without a readable number, or a count of positional
    /// arguments other than two.
    pub fn try_parse_from(args: &Vec<&str>) -> (r: Option<Config>)
        ensures
            r is Some <==> spec_parse(args_model(args@)) is Some,
            r is Some ==> r->0@ == spec_parse(args_model(args@))->0,
    {
        let n = args.len();
        if n == 0 {
            return None;
        }
        let ghost full = args_model(args@);
        let mut cfg = Config {
            query: String::new(),
            file_path: String::new(),
            ignore_case: false,
            line_number: false,
            word_regexp: false,
            before_context: None,
            after_context: None,
        };
        let mut positionals: usize = 0;
        let mut i: usize = 1;
        proof {
            assert(cfg@ == spec_default_model());
            assert(full.skip(1) =~= full.drop_first());
        }
        while i < n
            invariant
                1 <= i <= n,
                n == args@.len(),
                full == args_model(args@),
                positionals <= 2,
                spec_parse_args(full.drop_first(), spec_default_model(), 0) == spec_parse_args(
                    full.skip(i as int),
                    cfg@,
                    positionals as int,
                ),
            decreases n - i,
        {
            let a: &str = args[i];
            proof {
                assert(full.skip(i as int)[0] == a@);
                assert(full.skip(i as int).drop_first() =~= full.skip(i + 1));
            }
            if str_eq(a, "-i") || str_eq(a, "--ignore-case") {
                cfg.ignore_case = true;
                i = i + 1;
            } else if str_eq(a, "-l") || str_eq(a, "--line-number") {
                cfg.line_number = true;
                i = i + 1;
            } else if str_eq(a, "-w") || str_eq(a, "--word-regexp") {
                cfg.word_regexp = true;
                i = i + 1;
            } else if str_eq(a, "-B") || str_eq(a, "--before-context") {
                if i + 1 >= n {
                    return None;
                }
                let v: &str = args[i + 1];
                proof {
                    assert(full.skip(i as int).drop_first()[0] == v@);
                    assert(full.skip(i as int).drop_first().drop_first() =~= full.skip(i + 2));
                }
                match parse_usize(v) {
                    Some(num) => {
                        cfg.before_context = Some(num);
                        i = i + 2;
                    },
                    None => {
                        return None;
                    },
                }
            } else if str_eq(a, "-A") || str_eq(a, "--after-context") {
                if i + 1 >= n {
                    return None;
                }
                let v: &str = args[i + 1];
                proof {
                    assert(full.skip(i as int).drop_first()[0] == v@);
                    assert(full.skip(i as int).drop_first().drop_first() =~= full.skip(i + 2));
                }
                match parse_usize(v) {
                    Some(num) => {
                        cfg.after_context = Some(num);
                        i = i + 2;
                    },
                    None => {
                        return None;
                    },
                }
            } else if a.unicode_len() >= 2 && a.get_char(0) == '-' {
                return None;
            } else if positionals == 0 {
                cfg.query = a.to_owned();
                positionals = 1;
                i = i + 1;
            } else if positionals == 1 {
                cfg.file_path = a.to_owned();
                positionals = 2;
                i = i + 1;
            } else {
                return None;
            }
        }
        proof {
            assert(full.skip(n as int) =~= Seq::<Seq<char>>::empty());
        }
        if positionals == 2 {
            Some(cfg)
        } else {
            None
        }
    }

    /// Parses a full argument list that is known to be acceptable, program
    /// name first, and returns the configuration it denotes.
    pub fn parse_from(args: Vec<&str>) -> (c: Config)
        requires
            spec_parse(args_model(args@)) is Some,
        ensures
            c@ == spec_parse(args_model(args@))->0,
    {
        Self::try_parse_from(&args).unwrap()
    }
}

} // verus!
