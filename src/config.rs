use vstd::prelude::*;

verus! {

/// The display options of one invocation. `number_nonblank` wins over
/// `number` when both are set; `u` is accepted and has no effect.
#[derive(Clone, Copy, Debug, PartialEq, Eq, Structural)]
pub struct ArgSwitch {
    pub number_nonblank: bool,
    pub show_ends: bool,
    pub number: bool,
    pub squeeze_blank: bool,
    pub show_tabs: bool,
    pub u: bool,
    pub show_nonprinting: bool,
}

pub open spec fn no_switches() -> ArgSwitch {
    ArgSwitch {
        number_nonblank: false,
        show_ends: false,
        number: false,
        squeeze_blank: false,
        show_tabs: false,
        u: false,
        show_nonprinting: false,
    }
}

impl ArgSwitch {
    /// Every option off.
    pub fn new() -> (r: Self)
        ensures
            r == no_switches(),
    {
        ArgSwitch {
            number_nonblank: false,
            show_ends: false,
            number: false,
            squeeze_blank: false,
            show_tabs: false,
            u: false,
            show_nonprinting: false,
        }
    }
}

/// What a valid command line asks for.
#[derive(Debug, PartialEq, Eq)]
pub enum Command {
    /// Render these sources, in order, under these options.
    Run(ArgSwitch, Vec<String>),
    /// Print the usage text and stop.
    Help,
    /// Print the version text and stop.
    Version,
}

/// A command line that cannot be resolved.
#[derive(Debug, PartialEq, Eq)]
pub enum ArgError {
    /// A token starting with `--` that names no option.
    UnknownLong(String),
    /// A letter in a `-` cluster that names no option.
    UnknownShort(char),
}

/// The meaning of a command line, over plain values.
pub ghost enum ArgsModel {
    Run(ArgSwitch, Seq<Seq<char>>),
    Help,
    Version,
    BadLong(Seq<char>),
    BadShort(char),
}

pub open spec fn is_long_token(t: Seq<char>) -> bool {
    t.len() > 2 && t[0] == '-' && t[1] == '-'
}

pub open spec fn is_short_token(t: Seq<char>) -> bool {
    !is_long_token(t) && t.len() > 1 && t[0] == '-'
}

/// The effect of one letter of a short cluster, or `None` for an unknown one.
pub open spec fn short_effect(sw: ArgSwitch, c: char) -> Option<ArgSwitch> {
    if c == 'A' {
        Some(ArgSwitch { show_ends: true, show_nonprinting: true, show_tabs: true, ..sw })
    } else if c == 'b' {
        Some(ArgSwitch { number_nonblank: true, ..sw })
    } else if c == 'e' {
        Some(ArgSwitch { show_ends: true, show_nonprinting: true, ..sw })
    } else if c == 'E' {
        Some(ArgSwitch { show_ends: true, ..sw })
    } else if c == 'n' {
        Some(ArgSwitch { number: true, ..sw })
    } else if c == 's' {
        Some(ArgSwitch { squeeze_blank: true, ..sw })
    } else if c == 't' {
        Some(ArgSwitch { show_tabs: true, show_nonprinting: true, ..sw })
    } else if c == 'T' {
        Some(ArgSwitch { show_tabs: true, ..sw })
    } else if c == 'u' {
        Some(sw)
    } else if c == 'v' {
        Some(ArgSwitch { show_nonprinting: true, ..sw })
    } else {
        None
    }
}

/// The letters of a cluster applied in order; the first unknown one is the error.
pub open spec fn cluster_effect(sw: ArgSwitch, cs: Seq<char>) -> Result<ArgSwitch, char>
    decreases cs.len(),
{
    if cs.len() == 0 {
        Ok(sw)
    } else {
        match short_effect(sw, cs[0]) {
            Some(next) => cluster_effect(next, cs.drop_first()),
            None => Err(cs[0]),
        }
    }
}

/// The effect of a `--` token: new options, or an outcome that ends parsing.
pub open spec fn long_effect(sw: ArgSwitch, t: Seq<char>) -> Result<ArgSwitch, ArgsModel> {
    if t == "--version"@ {
        Err(ArgsModel::Version)
    } else if t == "--help"@ {
        Err(ArgsModel::Help)
    } else if t == "--show-all"@ {
        Ok(ArgSwitch { show_ends: true, show_nonprinting: true, show_tabs: true, ..sw })
    } else if t == "--number-nonblank"@ {
        Ok(ArgSwitch { number_nonblank: true, ..sw })
    } else if t == "--show-ends"@ {
        Ok(ArgSwitch { show_ends: true, ..sw })
    } else if t == "--number"@ {
        Ok(ArgSwitch { number: true, ..sw })
    } else if t == "--squeeze-blank"@ {
        Ok(ArgSwitch { squeeze_blank: true, ..sw })
    } else if t == "--show-tabs"@ {
        Ok(ArgSwitch { show_tabs: true, ..sw })
    } else if t == "--show-nonprinting"@ {
        Ok(ArgSwitch { show_nonprinting: true, ..sw })
    } else {
        Err(ArgsModel::BadLong(t))
    }
}

/// One token applied to the options and sources gathered so far.
pub open spec fn token_effect(sw: ArgSwitch, paths: Seq<Seq<char>>, t: Seq<char>) -> ArgsModel {
    if is_long_token(t) {
        match long_effect(sw, t) {
            Ok(next) => ArgsModel::Run(next, paths),
            Err(end) => end,
        }
    } else if is_short_token(t) {
        match cluster_effect(sw, t.drop_first()) {
            Ok(next) => ArgsModel::Run(next, paths),
            Err(c) => ArgsModel::BadShort(c),
        }
    } else {
        ArgsModel::Run(sw, paths.push(t))
    }
}

/// The tokens applied in order; the first that ends parsing decides.
pub open spec fn tokens_effect(sw: ArgSwitch, paths: Seq<Seq<char>>, ts: Seq<Seq<char>>) -> ArgsModel
    decreases ts.len(),
{
    if ts.len() == 0 {
        ArgsModel::Run(sw, paths)
    } else {
        match token_effect(sw, paths, ts[0]) {
            ArgsModel::Run(next, more) => tokens_effect(next, more, ts.drop_first()),
            end => end,
        }
    }
}

/// The meaning of a whole command line; the program name is skipped.
pub open spec fn parse_spec(args: Seq<Seq<char>>) -> ArgsModel {
    if args.len() == 0 {
        ArgsModel::Run(no_switches(), Seq::empty())
    } else {
        tokens_effect(no_switches(), Seq::empty(), args.drop_first())
    }
}

/// The meaning of what `parse_args` returned.
pub open spec fn outcome_of(r: Result<Command, ArgError>) -> ArgsModel {
    match r {
        Ok(Command::Run(sw, paths)) => ArgsModel::Run(sw, paths.deep_view()),
        Ok(Command::Help) => ArgsModel::Help,
        Ok(Command::Version) => ArgsModel::Version,
        Err(ArgError::UnknownLong(t)) => ArgsModel::BadLong(t@),
        Err(ArgError::UnknownShort(c)) => ArgsModel::BadShort(c),
    }
}

fn is_flag(arg: &String, name: &str) -> (r: bool)
    ensures
        r == (arg@ == name@),
{
    let flag = String::from_str(name);
    arg.eq(&flag)
}

fn apply_short(sw: ArgSwitch, c: char) -> (r: Option<ArgSwitch>)
    ensures
        r == short_effect(sw, c),
{
    let mut next = sw;
    match c {
        'A' => {
            next.show_ends = true;
            next.show_nonprinting = true;
            next.show_tabs = true;
        },
        'b' => next.number_nonblank = true,
        'e' => {
            next.show_ends = true;
            next.show_nonprinting = true;
        },
        'E' => next.show_ends = true,
        'n' => next.number = true,
        's' => next.squeeze_blank = true,
        't' => {
            next.show_tabs = true;
            next.show_nonprinting = true;
        },
        'T' => next.show_tabs = true,
        'u' => {},
        'v' => next.show_nonprinting = true,
        _ => return None,
    }
    Some(next)
}

/// The meaning of what `apply_long` returned.
pub open spec fn long_outcome_of(r: Result<ArgSwitch, Result<Command, ArgError>>) -> Result<ArgSwitch, ArgsModel> {
    match r {
        Ok(sw) => Ok(sw),
        Err(end) => Err(outcome_of(end)),
    }
}

fn apply_long(sw: ArgSwitch, arg: &String) -> (r: Result<ArgSwitch, Result<Command, ArgError>>)
    ensures
        long_outcome_of(r) == long_effect(sw, arg@),
{
    let mut next = sw;
    if is_flag(arg, "--version") {
        return Err(Ok(Command::Version));
    } else if is_flag(arg, "--help") {
        return Err(Ok(Command::Help));
    } else if is_flag(arg, "--show-all") {
        next.show_ends = true;
        next.show_nonprinting = true;
        next.show_tabs = true;
    } else if is_flag(arg, "--number-nonblank") {
        next.number_nonblank = true;
    } else if is_flag(arg, "--show-ends") {
        next.show_ends = true;
    } else if is_flag(arg, "--number") {
        next.number = true;
    } else if is_flag(arg, "--squeeze-blank") {
        next.squeeze_blank = true;
    } else if is_flag(arg, "--show-tabs") {
        next.show_tabs = true;
    } else if is_flag(arg, "--show-nonprinting") {
        next.show_nonprinting = true;
    } else {
        return Err(Err(ArgError::UnknownLong(arg.clone())));
    }
    Ok(next)
}

fn apply_cluster(sw: ArgSwitch, arg: &String) -> (r: Result<ArgSwitch, char>)
    requires
        arg@.len() > 1,
    ensures
        r == cluster_effect(sw, arg@.drop_first()),
{
    let s = arg.as_str();
    let n = s.unicode_len();
    let mut cur = sw;
    let mut j: usize = 1;
    assert(arg@.subrange(1, n as int) =~= arg@.drop_first());
    while j < n
        invariant
            1 <= j <= n,
            n == arg@.len(),
            s@ == arg@,
            cluster_effect(sw, arg@.drop_first()) == cluster_effect(cur, arg@.subrange(j as int, n as int)),
        decreases n - j,
    {
        let c = s.get_char(j);
        assert(arg@.subrange(j as int + 1, n as int) =~= arg@.subrange(j as int, n as int).drop_first());
        match apply_short(cur, c) {
            Some(next) => cur = next,
            None => return Err(c),
        }
        j = j + 1;
    }
    Ok(cur)
}

/// Resolves a command line (program name first) into the options and the
/// sources to render, or into help, version, or the first unknown option.
pub fn parse_args(args: &[String]) -> (r: Result<Command, ArgError>)
    ensures
        outcome_of(r) == parse_spec(args.deep_view()),
{
    let mut sw = ArgSwitch::new();
    let mut paths: Vec<String> = Vec::new();
    if args.len() == 0 {
        assert(paths.deep_view() =~= Seq::<Seq<char>>::empty());
        return Ok(Command::Run(sw, paths));
    }
    let ghost all = args.deep_view();
    let mut i: usize = 1;
    assert(all.subrange(1, all.len() as int) =~= all.drop_first());
    assert(paths.deep_view() =~= Seq::<Seq<char>>::empty());
    while i < args.len()
        invariant
            1 <= i <= args@.len(),
            all == args.deep_view(),
            parse_spec(all) == tokens_effect(sw, paths.deep_view(), all.subrange(i as int, all.len() as int)),
        decreases args@.len() - i,
    {
        let arg = &args[i];
        let ghost rest = all.subrange(i as int, all.len() as int);
        assert(rest[0] == arg@);
        assert(all.subrange(i as int + 1, all.len() as int) =~= rest.drop_first());
        let s = arg.as_str();
        let n = s.unicode_len();
        if n > 2 && s.get_char(0) == '-' && s.get_char(1) == '-' {
            match apply_long(sw, arg) {
                Ok(next) => sw = next,
                Err(end) => return end,
            }
        } else if n > 1 && s.get_char(0) == '-' {
            match apply_cluster(sw, arg) {
                Ok(next) => sw = next,
                Err(c) => return Err(ArgError::UnknownShort(c)),
            }
        } else {
            let ghost before = paths.deep_view();
            paths.push(arg.clone());
            assert(paths.deep_view() =~= before.push(arg@));
        }
        i = i + 1;
    }
    assert(all.subrange(i as int, all.len() as int) =~= Seq::<Seq<char>>::empty());
    Ok(Command::Run(sw, paths))
}

} // verus!
