//! Command-line arguments of the demo: `[--theme <name>] [--output <path>] [--wasm <file>]`.

use vstd::prelude::*;
use crate::text::{string_chars, chars_eq, lit, chars_to_string};
use crate::diagram::opt_view;

verus! {

/// Parsed arguments.
pub struct CliArgs {
    pub theme: Option<String>,
    pub output: Option<String>,
    pub wasm: Option<String>,
}

/// Values of the three options.
pub struct CliV {
    pub theme: Option<Seq<char>>,
    pub output: Option<Seq<char>>,
    pub wasm: Option<Seq<char>>,
}

impl View for CliArgs {
    type V = CliV;

    open spec fn view(&self) -> CliV {
        CliV { theme: opt_view(self.theme), output: opt_view(self.output), wasm: opt_view(self.wasm) }
    }
}

/// Scans `args` from index `i`: an option takes the next argument as its value (a
/// later occurrence wins, a trailing option without a value sets nothing), anything
/// else is ignored.
pub open spec fn cli_scan(args: Seq<Seq<char>>, i: int, st: CliV) -> CliV
    decreases args.len() - i,
{
    if i < 0 || i >= args.len() {
        st
    } else if args[i] == "--theme"@ || args[i] == "--output"@ || args[i] == "--wasm"@ {
        if i + 1 < args.len() {
            let v = Some(args[i + 1]);
            let st2 = if args[i] == "--theme"@ {
                CliV { theme: v, ..st }
            } else if args[i] == "--output"@ {
                CliV { output: v, ..st }
            } else {
                CliV { wasm: v, ..st }
            };
            cli_scan(args, i + 2, st2)
        } else {
            st
        }
    } else {
        cli_scan(args, i + 1, st)
    }
}

/// The arguments `args` describe.
pub open spec fn cli_of(args: Seq<Seq<char>>) -> CliV {
    cli_scan(args, 0, CliV { theme: None, output: None, wasm: None })
}

impl CliArgs {
    /// Parses the given arguments (the program name excluded).
    pub fn parse_from(args: &[String]) -> (r: Self)
        ensures
            r@ == cli_of(args@.map_values(|a: String| a@)),
    {
        let ghost av = args@.map_values(|a: String| a@);
        let mut theme: Option<String> = None;
        let mut output: Option<String> = None;
        let mut wasm: Option<String> = None;
        let t_opt = lit("--theme");
        let o_opt = lit("--output");
        let w_opt = lit("--wasm");
        let mut i: usize = 0;
        while i < args.len()
            invariant
                i <= args@.len(),
                av == args@.map_values(|a: String| a@),
                t_opt@ == "--theme"@,
                o_opt@ == "--output"@,
                w_opt@ == "--wasm"@,
                cli_of(av) == cli_scan(av, i as int, CliV { theme: opt_view(theme), output: opt_view(output), wasm: opt_view(wasm) }),
            decreases args@.len() - i,
        {
            let a = string_chars(&args[i]);
            assert(av[i as int] == a@);
            let is_t = chars_eq(&a, &t_opt);
            let is_o = chars_eq(&a, &o_opt);
            let is_w = chars_eq(&a, &w_opt);
            if is_t || is_o || is_w {
                if i + 1 < args.len() {
                    let v = chars_to_string(&string_chars(&args[i + 1]));
                    assert(av[i + 1] == v@);
                    if is_t {
                        theme = Some(v);
                    } else if is_o {
                        output = Some(v);
                    } else {
                        wasm = Some(v);
                    }
                    i += 2;
                } else {
                    return CliArgs { theme, output, wasm };
                }
            } else {
                i += 1;
            }
        }
        CliArgs { theme, output, wasm }
    }

    /// Theme name; `default` when none was given.
    pub fn theme_name(&self) -> (r: &str)
        ensures
            r@ == match self@.theme {
                Some(t) => t,
                None => "default"@,
            },
    {
        match &self.theme {
            Some(t) => t.as_str(),
            None => "default",
        }
    }

    /// Theme argument as given.
    pub fn theme_arg(&self) -> (r: Option<&str>)
        ensures
            match r {
                Some(t) => self@.theme == Some(t@),
                None => self@.theme is None,
            },
    {
        match &self.theme {
            Some(t) => Some(t.as_str()),
            None => None,
        }
    }

    /// Whether a wasm component renders in place of the native renderer.
    pub fn use_wasm(&self) -> (r: bool)
        ensures
            r == self@.wasm is Some,
    {
        self.wasm.is_some()
    }
}

} // verus!
