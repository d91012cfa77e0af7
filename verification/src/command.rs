//! The interactive commands: how a typed line becomes a command, what each
//! command is called and shown as, and how a build target picks a file.
use crate::registry::FileMeta;
use crate::text::{
    eq_lower_ascii, fields, parse_i32, parse_i32_spec, parse_unsigned, parse_usize,
    same_letter, split_at_first, split_fields, split_once, starts_with, str_eq, strip_prefix, strs,
    trim_white, trim_whitespace,
};
use vstd::prelude::*;
use vstd::string::*;

verus! {

/// Which file a build addresses: by name or by 1-based position.
#[derive(Debug, PartialEq)]
pub enum BuildTarget {
    ByName(String),
    ByIndex(usize),
}

/// A build target as a value.
pub enum TargetSpec {
    ByName(Seq<char>),
    ByIndex(nat),
}

impl View for BuildTarget {
    type V = TargetSpec;

    open spec fn view(&self) -> TargetSpec {
        match self {
            BuildTarget::ByName(s) => TargetSpec::ByName(s@),
            BuildTarget::ByIndex(i) => TargetSpec::ByIndex(*i as nat),
        }
    }
}

impl Default for BuildTarget {
    fn default() -> (r: Self)
        ensures
            r == BuildTarget::ByIndex(1),
    {
        BuildTarget::ByIndex(1)
    }
}

pub open spec fn opt_target(t: Option<BuildTarget>) -> Option<TargetSpec> {
    match t {
        Some(b) => Some(b@),
        None => None,
    }
}

pub open spec fn opt_str(o: Option<String>) -> Option<Seq<char>> {
    match o {
        Some(s) => Some(s@),
        None => None,
    }
}

#[derive(Debug, Clone, Copy, PartialEq, Eq, Structural)]
pub enum SortOrder {
    Asc,
    Desc,
}

/// Options of the `view` command.
#[derive(Debug, PartialEq)]
pub struct ViewFlags {
    pub name: Option<String>,
    pub number: Option<i32>,
    pub sort: Option<SortOrder>,
}

/// The `view` options as values: name, number, sort order.
pub type ViewFlagsSpec = (Option<Seq<char>>, Option<i32>, Option<SortOrder>);

impl View for ViewFlags {
    type V = ViewFlagsSpec;

    open spec fn view(&self) -> ViewFlagsSpec {
        (opt_str(self.name), self.number, self.sort)
    }
}

impl Default for ViewFlags {
    fn default() -> (r: Self)
        ensures
            r.name is None,
            r.number is None,
            r.sort is None,
    {
        ViewFlags { name: None, number: None, sort: None }
    }
}

/// Arguments of the `view` command.
#[derive(Debug, PartialEq)]
pub struct ViewArgs {
    pub target: Option<BuildTarget>,
    pub flags: ViewFlags,
}

impl Default for ViewArgs {
    fn default() -> (r: Self)
        ensures
            r.target is None,
            r.flags@ == (None::<Seq<char>>, None::<i32>, None::<SortOrder>),
    {
        ViewArgs { target: None, flags: ViewFlags::default() }
    }
}

/// Options of the `build` command.
#[derive(Debug, PartialEq)]
pub struct BuildFlags {
    pub force: bool,
    pub ext: Option<String>,
    pub filter: Option<String>,
}

impl Default for BuildFlags {
    fn default() -> (r: Self)
        ensures
            !r.force,
            r.ext is None,
            r.filter is None,
    {
        BuildFlags { force: false, ext: None, filter: None }
    }
}

/// Arguments of the `build` command.
#[derive(Debug, PartialEq)]
pub struct BuildAllArgs {
    pub target: Option<BuildTarget>,
    pub flags: BuildFlags,
}

impl Default for BuildAllArgs {
    fn default() -> (r: Self)
        ensures
            r@ == (None::<TargetSpec>, false, None::<Seq<char>>, None::<Seq<char>>),
    {
        BuildAllArgs { target: None, flags: BuildFlags::default() }
    }
}

/// The `build` arguments as values: target, force, extension, filter.
pub type BuildAllSpec = (Option<TargetSpec>, bool, Option<Seq<char>>, Option<Seq<char>>);

impl View for BuildAllArgs {
    type V = BuildAllSpec;

    open spec fn view(&self) -> BuildAllSpec {
        (opt_target(self.target), self.flags.force, opt_str(self.flags.ext), opt_str(self.flags.filter))
    }
}

/// Which files a listing shows.
#[derive(Debug, Clone, Copy, PartialEq, Eq, Default, Structural)]
pub enum ListFilter {
    #[default]
    Active,
    Archived,
    All,
}

/// A command of the interactive session.
#[derive(Debug, PartialEq)]
pub enum Command {
    Mode(String),
    List(ListFilter),
    Tree,
    History(Option<String>),
    CapabilityMap,
    Diff(String, String),
    Build(BuildTarget),
    BuildAll(BuildAllArgs),
    View(ViewArgs),
    Clear,
    Help,
    Exit,
}

/// A command as a value.
pub enum CommandView {
    Mode(Seq<char>),
    List(ListFilter),
    Tree,
    History(Option<Seq<char>>),
    CapabilityMap,
    Diff(Seq<char>, Seq<char>),
    Build(TargetSpec),
    BuildAll(BuildAllSpec),
    View((Option<TargetSpec>, ViewFlagsSpec)),
    Clear,
    Help,
    Exit,
}

impl View for Command {
    type V = CommandView;

    open spec fn view(&self) -> CommandView {
        match self {
            Command::Mode(m) => CommandView::Mode(m@),
            Command::List(f) => CommandView::List(*f),
            Command::Tree => CommandView::Tree,
            Command::History(t) => CommandView::History(opt_str(*t)),
            Command::CapabilityMap => CommandView::CapabilityMap,
            Command::Diff(a, b) => CommandView::Diff(a@, b@),
            Command::Build(t) => CommandView::Build(t@),
            Command::BuildAll(a) => CommandView::BuildAll(a@),
            Command::View(v) => CommandView::View((opt_target(v.target), v.flags@)),
            Command::Clear => CommandView::Clear,
            Command::Help => CommandView::Help,
            Command::Exit => CommandView::Exit,
        }
    }
}

/// How a command is listed.
pub struct CommandMeta {
    pub label: &'static str,
    pub alias: Option<&'static str>,
    pub description: &'static str,
    pub hidden: bool,
    pub weight: u32,
}

/// The label, alias, description, hidden mark and weight of each command.
pub open spec fn meta_spec(c: CommandView) -> (Seq<char>, Option<Seq<char>>, Seq<char>, bool, u32) {
    match c {
        CommandView::Mode(_) => (
            "mode"@,
            None,
            "Switch compiler execution mode (batch|interactive)"@,
            false,
            5,
        ),
        CommandView::BuildAll(_) => ("build"@, Some("b -a"@), "Compile project"@, false, 100),
        CommandView::Build(_) => (
            "build-target"@,
            Some("b -t"@),
            "Compile component"@,
            false,
            100,
        ),
        CommandView::List(_) => ("ls"@, None, "List files"@, false, 10),
        CommandView::Tree => ("tree"@, None, "Display namespace hierarchy"@, false, 20),
        CommandView::History(_) => ("history"@, None, "Show version audit trail"@, false, 5),
        CommandView::CapabilityMap => ("caps"@, None, "Show capability matrix"@, false, 15),
        CommandView::Diff(_, _) => ("diff"@, None, "Compare two components"@, false, 30),
        CommandView::View(_) => ("view"@, Some("v"@), "Display file contents"@, false, 40),
        CommandView::Clear => ("clear"@, Some("c"@), "Clear terminal"@, true, 1),
        CommandView::Help => ("help"@, None, "Show available commands"@, false, 0),
        CommandView::Exit => ("exit"@, None, "Quit application"@, false, 0),
    }
}

pub open spec fn opt_static(o: Option<&'static str>) -> Option<Seq<char>> {
    match o {
        Some(s) => Some(s@),
        None => None,
    }
}

/// `s` without its leading `p`, repeatedly: `s.trim_start_matches(p)`; an
/// empty `p` leaves `s` as it is.
pub open spec fn strip_all(s: Seq<char>, p: Seq<char>) -> Seq<char>
    decreases s.len(),
{
    if p.len() > 0 && p.len() <= s.len() && s.subrange(0, p.len() as int) == p {
        strip_all(s.subrange(p.len() as int, s.len() as int), p)
    } else {
        s
    }
}

/// Whether `w` spells `desc` in any ASCII case.
pub open spec fn is_desc(w: Seq<char>) -> bool {
    w.len() == "desc"@.len() && forall|i: int| 0 <= i < w.len() ==> same_letter(#[trigger] w[i], "desc"@[i])
}

/// The target that `build-target` reads from its argument: `-n N` is the
/// position `N` (1 when `N` is not a number), anything else a name.
pub open spec fn parse_build_spec(arg: Seq<char>) -> TargetSpec {
    let p = "-n "@;
    if p.len() <= arg.len() && arg.subrange(0, p.len() as int) == p {
        match parse_unsigned(arg.subrange(p.len() as int, arg.len() as int), usize::MAX as nat) {
            Some(n) => TargetSpec::ByIndex(n),
            None => TargetSpec::ByIndex(1),
        }
    } else {
        TargetSpec::ByName(arg)
    }
}

/// The `view` options after reading `words` from the front: `-n`/`-name`
/// and the next word set the name, `-num` and the next word the number (if
/// it is one), `-s`/`-sort` and the next word the order (descending for
/// `desc` in any case, else ascending); other words are skipped.
pub open spec fn apply_view_flags(words: Seq<Seq<char>>, f: ViewFlagsSpec) -> ViewFlagsSpec
    decreases words.len(),
{
    if words.len() == 0 {
        f
    } else {
        let w = words[0];
        let has_next = words.len() >= 2;
        let rest = if has_next {
            words.subrange(2, words.len() as int)
        } else {
            words.subrange(1, words.len() as int)
        };
        if w == "-n"@ || w == "-name"@ {
            if has_next {
                apply_view_flags(rest, (Some(words[1]), f.1, f.2))
            } else {
                f
            }
        } else if w == "-num"@ {
            if has_next {
                match parse_i32_spec(words[1]) {
                    Some(v) => apply_view_flags(rest, (f.0, Some(v as i32), f.2)),
                    None => apply_view_flags(rest, f),
                }
            } else {
                f
            }
        } else if w == "-s"@ || w == "-sort"@ {
            if has_next {
                apply_view_flags(
                    rest,
                    (f.0, f.1, Some(
                        if is_desc(words[1]) {
                            SortOrder::Desc
                        } else {
                            SortOrder::Asc
                        },
                    )),
                )
            } else {
                f
            }
        } else {
            apply_view_flags(words.subrange(1, words.len() as int), f)
        }
    }
}

/// The `view` options of an argument: a first word that does not start
/// with `-` is the name, then the options.
pub open spec fn parse_view_spec(arg: Seq<char>) -> ViewFlagsSpec {
    let words = fields(arg, None);
    if words.len() > 0 && !(words[0].len() > 0 && words[0][0] == '-') {
        apply_view_flags(words.subrange(1, words.len() as int), (Some(words[0]), None, None))
    } else {
        apply_view_flags(words, (None, None, None))
    }
}

/// Whether `w` is a sort option.
pub open spec fn is_sort_option(w: Seq<char>) -> bool {
    w == "-s"@ || w == "-sort"@
}

/// Words with no sort option among them leave the sort order as it was.
proof fn lemma_no_sort_option_keeps_order(words: Seq<Seq<char>>, f: ViewFlagsSpec)
    requires
        forall|i: int| 0 <= i < words.len() ==> !is_sort_option(#[trigger] words[i]),
    ensures
        apply_view_flags(words, f).2 == f.2,
    decreases words.len(),
{
    if words.len() > 0 {
        assert(!is_sort_option(words[0]));
        let rest = if words.len() >= 2 {
            words.subrange(2, words.len() as int)
        } else {
            words.subrange(1, words.len() as int)
        };
        let tail = words.subrange(1, words.len() as int);
        assert forall|i: int| 0 <= i < rest.len() implies !is_sort_option(#[trigger] rest[i]) by {
            if words.len() >= 2 {
                assert(rest[i] == words[i + 2]);
            } else {
                assert(rest[i] == words[i + 1]);
            }
        }
        assert forall|i: int| 0 <= i < tail.len() implies !is_sort_option(#[trigger] tail[i]) by {
            assert(tail[i] == words[i + 1]);
        }
        let w = words[0];
        if w == "-n"@ || w == "-name"@ {
            if words.len() >= 2 {
                lemma_no_sort_option_keeps_order(rest, (Some(words[1]), f.1, f.2));
            }
        } else if w == "-num"@ {
            if words.len() >= 2 {
                match parse_i32_spec(words[1]) {
                    Some(v) => lemma_no_sort_option_keeps_order(rest, (f.0, Some(v as i32), f.2)),
                    None => lemma_no_sort_option_keeps_order(rest, f),
                }
            }
        } else {
            lemma_no_sort_option_keeps_order(tail, f);
        }
    }
}

/// A sort option followed by a word sets the order: descending when the
/// word spells `desc` in any case, ascending otherwise, as long as no later
/// sort option follows. This holds of the options after a leading name
/// too.
pub proof fn law_sort_option_sets_order(
    flag: Seq<char>,
    w: Seq<char>,
    rest: Seq<Seq<char>>,
    f: ViewFlagsSpec,
)
    requires
        is_sort_option(flag),
        forall|i: int| 0 <= i < rest.len() ==> !is_sort_option(#[trigger] rest[i]),
    ensures
        apply_view_flags(seq![flag, w] + rest, f).2 == Some(
            if is_desc(w) {
                SortOrder::Desc
            } else {
                SortOrder::Asc
            },
        ),
{
    let words = seq![flag, w] + rest;
    assert(words[0] == flag);
    assert(words[1] == w);
    assert(words.subrange(2, words.len() as int) =~= rest);
    reveal_strlit("-s");
    reveal_strlit("-sort");
    reveal_strlit("-n");
    reveal_strlit("-name");
    reveal_strlit("-num");
    assert(flag.len() >= 2 && flag[1] == 's');
    assert("-n"@[1] == 'n' && "-name"@[1] == 'n' && "-num"@[1] == 'n');
    assert(flag != "-n"@ && flag != "-name"@ && flag != "-num"@);
    lemma_no_sort_option_keeps_order(
        rest,
        (f.0, f.1, Some(
            if is_desc(w) {
                SortOrder::Desc
            } else {
                SortOrder::Asc
            },
        )),
    );
}

/// The order `view` reads from its argument: when the argument's words
/// are a sort option and a word, perhaps after a leading name, with no
/// later sort option, the order is descending exactly when that word
/// spells `desc` in any case.
pub proof fn law_view_sort_order(arg: Seq<char>, lead: Seq<Seq<char>>, flag: Seq<char>, w: Seq<char>, rest: Seq<Seq<char>>)
    requires
        fields(arg, None) == lead + seq![flag, w] + rest,
        lead.len() == 0 || (lead.len() == 1 && !(lead[0].len() > 0 && lead[0][0] == '-')),
        is_sort_option(flag),
        forall|i: int| 0 <= i < rest.len() ==> !is_sort_option(#[trigger] rest[i]),
    ensures
        parse_view_spec(arg).2 == Some(
            if is_desc(w) {
                SortOrder::Desc
            } else {
                SortOrder::Asc
            },
        ),
{
    let words = fields(arg, None);
    reveal_strlit("-s");
    reveal_strlit("-sort");
    if lead.len() == 0 {
        assert(words =~= seq![flag, w] + rest);
        assert(words[0] == flag && flag[0] == '-');
        law_sort_option_sets_order(flag, w, rest, (None, None, None));
    } else {
        assert(words[0] == lead[0]);
        assert(words.subrange(1, words.len() as int) =~= seq![flag, w] + rest);
        law_sort_option_sets_order(flag, w, rest, (Some(words[0]), None, None));
    }
}

/// `desc` in any case asks for the descending order.
pub proof fn law_desc_in_any_case(w: Seq<char>)
    requires
        w.len() == 4,
        w[0] == 'd' || w[0] == 'D',
        w[1] == 'e' || w[1] == 'E',
        w[2] == 's' || w[2] == 'S',
        w[3] == 'c' || w[3] == 'C',
    ensures
        is_desc(w),
{
    reveal_strlit("desc");
    assert forall|i: int| 0 <= i < w.len() implies same_letter(#[trigger] w[i], "desc"@[i]) by {
    }
}

/// The `build` arguments after one more word.
pub open spec fn build_all_step(st: BuildAllSpec, w: Seq<char>) -> BuildAllSpec {
    let force = "--force"@;
    let ext = "--ext="@;
    let filter = "--filter="@;
    let n = "-n"@;
    if w == force {
        (st.0, true, st.2, st.3)
    } else if ext.len() <= w.len() && w.subrange(0, ext.len() as int) == ext {
        (st.0, st.1, Some(w.subrange(ext.len() as int, w.len() as int)), st.3)
    } else if filter.len() <= w.len() && w.subrange(0, filter.len() as int) == filter {
        (st.0, st.1, st.2, Some(w.subrange(filter.len() as int, w.len() as int)))
    } else if w == n {
        st
    } else if n.len() <= w.len() && w.subrange(0, n.len() as int) == n {
        match parse_unsigned(strip_all(w, n), usize::MAX as nat) {
            Some(v) => (Some(TargetSpec::ByIndex(v)), st.1, st.2, st.3),
            None => st,
        }
    } else if st.0 is None {
        (Some(TargetSpec::ByName(w)), st.1, st.2, st.3)
    } else {
        st
    }
}

/// The `build` arguments of a list of words, read from the left.
pub open spec fn build_all_spec(words: Seq<Seq<char>>) -> BuildAllSpec
    decreases words.len(),
{
    if words.len() == 0 {
        (None, false, None, None)
    } else {
        build_all_step(build_all_spec(words.drop_last()), words.last())
    }
}

/// The words of an optional argument (none when it is absent).
pub open spec fn arg_words(arg: Option<Seq<char>>) -> Seq<Seq<char>> {
    match arg {
        Some(a) => fields(a, None),
        None => Seq::empty(),
    }
}

/// The command that a typed command word and its optional argument make.
pub open spec fn parse_command(cmd: Seq<char>, arg: Option<Seq<char>>) -> Option<CommandView> {
    if cmd == "mode"@ {
        match arg {
            Some(a) => Some(CommandView::Mode(a)),
            None => None,
        }
    } else if cmd == "build"@ || cmd == "b"@ {
        Some(CommandView::BuildAll(build_all_spec(arg_words(arg))))
    } else if cmd == "build-target"@ {
        match arg {
            Some(a) => Some(CommandView::Build(parse_build_spec(a))),
            None => None,
        }
    } else if cmd == "ls"@ {
        Some(CommandView::List(ListFilter::Active))
    } else if cmd == "ls-all"@ {
        Some(CommandView::List(ListFilter::All))
    } else if cmd == "ls-archived"@ {
        Some(CommandView::List(ListFilter::Archived))
    } else if cmd == "tree"@ {
        Some(CommandView::Tree)
    } else if cmd == "caps"@ {
        Some(CommandView::CapabilityMap)
    } else if cmd == "clear"@ {
        Some(CommandView::Clear)
    } else if cmd == "help"@ {
        Some(CommandView::Help)
    } else if cmd == "exit"@ || cmd == "quit"@ {
        Some(CommandView::Exit)
    } else if cmd == "view"@ || cmd == "v"@ {
        Some(
            CommandView::View(
                (
                    None,
                    match arg {
                        Some(a) => parse_view_spec(a),
                        None => parse_view_spec(Seq::empty()),
                    },
                ),
            ),
        )
    } else if cmd == "history"@ {
        Some(CommandView::History(arg))
    } else if cmd == "diff"@ {
        match arg {
            Some(a) => if fields(a, None).len() == 2 {
                Some(CommandView::Diff(fields(a, None)[0], fields(a, None)[1]))
            } else {
                None
            },
            None => None,
        }
    } else {
        None
    }
}

pub open spec fn opt_str_ref(o: Option<&str>) -> Option<Seq<char>> {
    match o {
        Some(s) => Some(s@),
        None => None,
    }
}

impl Command {
    /// How this command is listed.
    pub fn metadata(&self) -> (r: CommandMeta)
        ensures
            (r.label@, opt_static(r.alias), r.description@, r.hidden, r.weight) == meta_spec(
                self@,
            ),
    {
        match self {
            Command::Mode(_) => CommandMeta {
                label: "mode",
                alias: None,
                description: "Switch compiler execution mode (batch|interactive)",
                hidden: false,
                weight: 5,
            },
            Command::BuildAll(_) => CommandMeta {
                label: "build",
                alias: Some("b -a"),
                description: "Compile project",
                hidden: false,
                weight: 100,
            },
            Command::Build(_) => CommandMeta {
                label: "build-target",
                alias: Some("b -t"),
                description: "Compile component",
                hidden: false,
                weight: 100,
            },
            Command::List(_) => CommandMeta {
                label: "ls",
                alias: None,
                description: "List files",
                hidden: false,
                weight: 10,
            },
            Command::Tree => CommandMeta {
                label: "tree",
                alias: None,
                description: "Display namespace hierarchy",
                hidden: false,
                weight: 20,
            },
            Command::History(_) => CommandMeta {
                label: "history",
                alias: None,
                description: "Show version audit trail",
                hidden: false,
                weight: 5,
            },
            Command::CapabilityMap => CommandMeta {
                label: "caps",
                alias: None,
                description: "Show capability matrix",
                hidden: false,
                weight: 15,
            },
            Command::Diff(_, _) => CommandMeta {
                label: "diff",
                alias: None,
                description: "Compare two components",
                hidden: false,
                weight: 30,
            },
            Command::View(_) => CommandMeta {
                label: "view",
                alias: Some("v"),
                description: "Display file contents",
                hidden: false,
                weight: 40,
            },
            Command::Clear => CommandMeta {
                label: "clear",
                alias: Some("c"),
                description: "Clear terminal",
                hidden: true,
                weight: 1,
            },
            Command::Help => CommandMeta {
                label: "help",
                alias: None,
                description: "Show available commands",
                hidden: false,
                weight: 0,
            },
            Command::Exit => CommandMeta {
                label: "exit",
                alias: None,
                description: "Quit application",
                hidden: false,
                weight: 0,
            },
        }
    }

    /// The target of `build-target`.
    pub fn parse_build(arg: &str) -> (r: BuildTarget)
        ensures
            r@ == parse_build_spec(arg@),
    {
        match strip_prefix(arg, "-n ") {
            Some(num) => {
                match parse_usize(num.as_str()) {
                    Some(n) => BuildTarget::ByIndex(n),
                    None => BuildTarget::ByIndex(1),
                }
            },
            None => BuildTarget::ByName(String::from_str(arg)),
        }
    }

    /// The arguments of `view`.
    pub fn parse_view(arg: &str) -> (r: ViewArgs)
        ensures
            r.target is None,
            r.flags@ == parse_view_spec(arg@),
    {
        let mut args = ViewArgs::default();
        let words = split_fields(arg, None);
        let ghost ws = strs(words@);
        let n = words.len();
        let mut i: usize = 0;
        if n > 0 {
            let first = words[0].as_str();
            if !starts_with(first, "-") {
                proof {
                    reveal_strlit("-");
                    if first@.len() > 0 && first@[0] == '-' {
                        assert(first@.subrange(0, 1) =~= "-"@);
                    }
                }
                args.flags.name = Some(words[0].clone());
                i = 1;
            } else {
                proof {
                    reveal_strlit("-");
                    assert(first@.subrange(0, 1)[0] == first@[0]);
                }
            }
        }
        proof {
            if n > 0 && i == 0 {
                assert(ws.subrange(0, n as int) =~= ws);
            }
            if n == 0 {
                assert(ws.subrange(0, 0) =~= ws);
            }
        }
        while i < n
            invariant
                n == words@.len(),
                ws == strs(words@),
                ws == fields(arg@, None),
                i <= n,
                args.target is None,
                apply_view_flags(ws.subrange(i as int, n as int), args.flags@) == parse_view_spec(
                    arg@,
                ),
            decreases n - i,
        {
            let part = words[i].as_str();
            let has_next = i + 1 < n;
            let ghost rest_words = ws.subrange(i as int, n as int);
            proof {
                assert(rest_words[0] == part@);
                if has_next {
                    assert(rest_words[1] == words@[i + 1]@);
                    assert(rest_words.subrange(2, rest_words.len() as int) =~= ws.subrange(
                        i + 2,
                        n as int,
                    ));
                } else {
                    assert(rest_words.subrange(1, rest_words.len() as int) =~= ws.subrange(
                        i + 1,
                        n as int,
                    ));
                }
                assert(rest_words.subrange(1, rest_words.len() as int) =~= ws.subrange(
                    i + 1,
                    n as int,
                ));
            }
            if str_eq(part, "-n") || str_eq(part, "-name") {
                if has_next {
                    args.flags.name = Some(words[i + 1].clone());
                    i = i + 2;
                } else {
                    i = n;
                    proof {
                        assert(ws.subrange(n as int, n as int) =~= Seq::<Seq<char>>::empty());
                    }
                }
            } else if str_eq(part, "-num") {
                if has_next {
                    match parse_i32(words[i + 1].as_str()) {
                        Some(v) => {
                            args.flags.number = Some(v);
                        },
                        None => {},
                    }
                    i = i + 2;
                } else {
                    i = n;
                    proof {
                        assert(ws.subrange(n as int, n as int) =~= Seq::<Seq<char>>::empty());
                    }
                }
            } else if str_eq(part, "-s") || str_eq(part, "-sort") {
                if has_next {
                    let desc = eq_lower_ascii(words[i + 1].as_str(), "desc");
                    args.flags.sort = Some(
                        if desc {
                            SortOrder::Desc
                        } else {
                            SortOrder::Asc
                        },
                    );
                    i = i + 2;
                } else {
                    i = n;
                    proof {
                        assert(ws.subrange(n as int, n as int) =~= Seq::<Seq<char>>::empty());
                    }
                }
            } else {
                i = i + 1;
            }
        }
        proof {
            assert(ws.subrange(n as int, n as int) =~= Seq::<Seq<char>>::empty());
        }
        args
    }

    /// The arguments of `build`.
    pub fn parse_build_all(input: &str) -> (r: BuildAllArgs)
        ensures
            r@ == build_all_spec(fields(input@, None)),
    {
        let mut flags = BuildFlags::default();
        let mut target: Option<BuildTarget> = None;
        let words = split_fields(input, None);
        let ghost ws = strs(words@);
        let n = words.len();
        let mut i: usize = 0;
        proof {
            reveal_strlit("--force");
            reveal_strlit("--ext=");
            reveal_strlit("--filter=");
            reveal_strlit("-n");
            assert(ws.subrange(0, 0) =~= Seq::<Seq<char>>::empty());
        }
        while i < n
            invariant
                n == words@.len(),
                ws == strs(words@),
                ws == fields(input@, None),
                i <= n,
                (opt_target(target), flags.force, opt_str(flags.ext), opt_str(flags.filter))
                    == build_all_spec(ws.subrange(0, i as int)),
            decreases n - i,
        {
            let part = words[i].as_str();
            proof {
                assert(ws.subrange(0, i + 1).drop_last() =~= ws.subrange(0, i as int));
                assert(ws.subrange(0, i + 1).last() == part@);
            }
            if str_eq(part, "--force") {
                flags.force = true;
            } else if starts_with(part, "--ext=") {
                flags.ext = strip_prefix(part, "--ext=");
            } else if starts_with(part, "--filter=") {
                flags.filter = strip_prefix(part, "--filter=");
            } else if str_eq(part, "-n") {
            } else if starts_with(part, "-n") {
                proof {
                    reveal_strlit("-n");
                }
                let num = strip_repeated(part, "-n");
                match parse_usize(num.as_str()) {
                    Some(v) => {
                        target = Some(BuildTarget::ByIndex(v));
                    },
                    None => {},
                }
            } else {
                if target.is_none() {
                    target = Some(BuildTarget::ByName(String::from_str(part)));
                }
            }
            i = i + 1;
        }
        proof {
            assert(ws.subrange(0, n as int) =~= ws);
        }
        BuildAllArgs { target, flags }
    }

    /// The command that a typed command word and argument make, if any.
    pub fn from_str(cmd: &str, arg: Option<&str>) -> (r: Option<Self>)
        ensures
            match (r, parse_command(cmd@, opt_str_ref(arg))) {
                (Some(c), Some(v)) => c@ == v,
                (None, None) => true,
                _ => false,
            },
    {
        if str_eq(cmd, "mode") {
            match arg {
                Some(a) => Some(Command::Mode(String::from_str(a))),
                None => None,
            }
        } else if str_eq(cmd, "build") || str_eq(cmd, "b") {
            let input = match arg {
                Some(a) => a,
                None => "",
            };
            proof {
                reveal_strlit("");
                if arg is None {
                    assert(fields(input@, None) =~= Seq::<Seq<char>>::empty());
                }
            }
            Some(Command::BuildAll(Self::parse_build_all(input)))
        } else if str_eq(cmd, "build-target") {
            match arg {
                Some(a) => Some(Command::Build(Self::parse_build(a))),
                None => None,
            }
        } else if str_eq(cmd, "ls") {
            Some(Command::List(ListFilter::Active))
        } else if str_eq(cmd, "ls-all") {
            Some(Command::List(ListFilter::All))
        } else if str_eq(cmd, "ls-archived") {
            Some(Command::List(ListFilter::Archived))
        } else if str_eq(cmd, "tree") {
            Some(Command::Tree)
        } else if str_eq(cmd, "caps") {
            Some(Command::CapabilityMap)
        } else if str_eq(cmd, "clear") {
            Some(Command::Clear)
        } else if str_eq(cmd, "help") {
            Some(Command::Help)
        } else if str_eq(cmd, "exit") || str_eq(cmd, "quit") {
            Some(Command::Exit)
        } else if str_eq(cmd, "view") || str_eq(cmd, "v") {
            let input = match arg {
                Some(a) => a,
                None => "",
            };
            proof {
                reveal_strlit("");
            }
            Some(Command::View(Self::parse_view(input)))
        } else if str_eq(cmd, "history") {
            match arg {
                Some(a) => Some(Command::History(Some(String::from_str(a)))),
                None => Some(Command::History(None)),
            }
        } else if str_eq(cmd, "diff") {
            match arg {
                Some(a) => {
                    let parts = split_fields(a, None);
                    if parts.len() == 2 {
                        Some(Command::Diff(parts[0].clone(), parts[1].clone()))
                    } else {
                        None
                    }
                },
                None => None,
            }
        } else {
            None
        }
    }
}

/// `s` without its leading `p`, repeatedly; an empty `p` leaves `s` as it
/// is.
pub fn strip_repeated(s: &str, p: &str) -> (r: String)
    ensures
        r@ == strip_all(s@, p@),
{
    let mut cur = String::from_str(s);
    if p.unicode_len() == 0 {
        return cur;
    }
    loop
        invariant
            p@.len() > 0,
            strip_all(cur@, p@) == strip_all(s@, p@),
        decreases cur@.len(),
    {
        match strip_prefix(cur.as_str(), p) {
            Some(rest) => {
                cur = rest;
            },
            None => {
                return cur;
            },
        }
    }
}

/// The position (1-based, 0 counting as 1) a target selects, or for a
/// name: the first file with that name and no utter, else the first file
/// with that name.
pub open spec fn target_index(files: Seq<FileMeta>, t: TargetSpec) -> Option<int> {
    match t {
        TargetSpec::ByIndex(i) => {
            let j = if i == 0 {
                0
            } else {
                i - 1
            };
            if j < files.len() {
                Some(j as int)
            } else {
                None
            }
        },
        TargetSpec::ByName(name) => name_index(files, name),
    }
}

/// The first file named `name` without an utter, else the first file named
/// `name`.
pub open spec fn name_index(files: Seq<FileMeta>, name: Seq<char>) -> Option<int> {
    if exists|k: int| plain_named(files, k, name) {
        Some(choose|k: int| first_plain_named(files, k, name))
    } else if exists|k: int| named(files, k, name) {
        Some(choose|k: int| first_named(files, k, name))
    } else {
        None
    }
}

pub open spec fn named(files: Seq<FileMeta>, k: int, name: Seq<char>) -> bool {
    0 <= k < files.len() && files[k].name@ == name
}

pub open spec fn plain_named(files: Seq<FileMeta>, k: int, name: Seq<char>) -> bool {
    named(files, k, name) && files[k].utter is None
}

pub open spec fn first_named(files: Seq<FileMeta>, k: int, name: Seq<char>) -> bool {
    named(files, k, name) && forall|m: int| 0 <= m < k ==> !#[trigger] named(files, m, name)
}

pub open spec fn first_plain_named(files: Seq<FileMeta>, k: int, name: Seq<char>) -> bool {
    plain_named(files, k, name) && forall|m: int| 0 <= m < k ==> !#[trigger] plain_named(files, m, name)
}

/// The file a build target selects.
pub fn resolve_target<'a>(files: &'a Vec<FileMeta>, target: &BuildTarget) -> (r: Option<&'a FileMeta>)
    ensures
        match (r, target_index(files@, target@)) {
            (Some(f), Some(k)) => *f == files@[k],
            (None, None) => true,
            _ => false,
        },
{
    match target {
        BuildTarget::ByIndex(i) => {
            let j = if *i == 0 {
                0
            } else {
                *i - 1
            };
            assert(target@ == TargetSpec::ByIndex(*i as nat));
            assert(target_index(files@, target@) == if j < files@.len() {
                Some(j as int)
            } else {
                None
            });
            if j < files.len() {
                Some(&files[j])
            } else {
                None
            }
        },
        BuildTarget::ByName(name) => {
            let ghost nm = name@;
            let mut first: Option<usize> = None;
            let n = files.len();
            let mut k: usize = 0;
            while k < n
                invariant
                    n == files@.len(),
                    nm == name@,
                    target@ == TargetSpec::ByName(nm),
                    k <= n,
                    forall|m: int| 0 <= m < k ==> !#[trigger] plain_named(files@, m, nm),
                    match first {
                        Some(a) => a < k && first_named(files@, a as int, nm),
                        None => forall|m: int| 0 <= m < k ==> !#[trigger] named(files@, m, nm),
                    },
                decreases n - k,
            {
                let f = &files[k];
                if str_eq(f.name.as_str(), name.as_str()) {
                    if f.utter.is_none() {
                        proof {
                            assert(first_plain_named(files@, k as int, nm));
                            let c = choose|c: int| first_plain_named(files@, c, nm);
                            assert(first_plain_named(files@, c, nm));
                            if c < k {
                                assert(!plain_named(files@, c, nm));
                            }
                            if k < c {
                                assert(!plain_named(files@, k as int, nm));
                            }
                            assert(c == k);
                            assert(exists|c: int| plain_named(files@, c, nm));
                            assert(name_index(files@, nm) == Some(k as int));
                            assert(target@ == TargetSpec::ByName(nm));
                            assert(target_index(files@, target@) == Some(k as int));
                            assert(*f == files@[k as int]);
                        }
                        return Some(f);
                    }
                    if first.is_none() {
                        first = Some(k);
                    }
                }
                k = k + 1;
            }
            proof {
                assert(!exists|c: int| plain_named(files@, c, nm));
            }
            match first {
                Some(a) => {
                    proof {
                        assert(first_named(files@, a as int, nm));
                        let c = choose|c: int| first_named(files@, c, nm);
                        assert(first_named(files@, c, nm));
                        if c < a {
                            assert(!named(files@, c, nm));
                        }
                        if a < c {
                            assert(!named(files@, a as int, nm));
                        }
                    }
                    Some(&files[a])
                },
                None => {
                    proof {
                        assert(!exists|c: int| named(files@, c, nm));
                    }
                    None
                },
            }
        },
    }
}

/// Typing a command's label, with or without an argument, gives back a
/// command with that label; the exceptions are the commands that need an
/// argument (`mode`, `build-target`, `diff`) typed without one, and `diff`
/// with an argument that is not two words. Only `clear` is hidden.
pub proof fn law_label_parses_back(c: CommandView, arg: Option<Seq<char>>)
    ensures
        match parse_command(meta_spec(c).0, arg) {
            Some(d) => meta_spec(d).0 == meta_spec(c).0,
            None => (arg is None && (c is Mode || c is Build || c is Diff)) || (c is Diff && (
            arg is Some && fields(arg->0, None).len() != 2)),
        },
        meta_spec(c).3 == (c is Clear),
{
    reveal_strlit("mode");
    reveal_strlit("build");
    reveal_strlit("b");
    reveal_strlit("build-target");
    reveal_strlit("ls");
    reveal_strlit("ls-all");
    reveal_strlit("ls-archived");
    reveal_strlit("tree");
    reveal_strlit("caps");
    reveal_strlit("clear");
    reveal_strlit("help");
    reveal_strlit("exit");
    reveal_strlit("quit");
    reveal_strlit("view");
    reveal_strlit("v");
    reveal_strlit("history");
    reveal_strlit("diff");
    match c {
        CommandView::Mode(_) => {

        },
        CommandView::BuildAll(_) => {
            assert("build"@.len() != "mode"@.len());
        },
        CommandView::Build(_) => {
            assert("build-target"@.len() != "mode"@.len());
            assert("build-target"@.len() != "build"@.len());
            assert("build-target"@.len() != "b"@.len());
        },
        CommandView::List(_) => {
            assert("ls"@.len() != "mode"@.len());
            assert("ls"@.len() != "build"@.len());
            assert("ls"@.len() != "b"@.len());
            assert("ls"@.len() != "build-target"@.len());
        },
        CommandView::Tree => {
            assert("tree"@[0] != "mode"@[0]);
            assert("tree"@.len() != "build"@.len());
            assert("tree"@.len() != "b"@.len());
            assert("tree"@.len() != "build-target"@.len());
            assert("tree"@.len() != "ls"@.len());
            assert("tree"@.len() != "ls-all"@.len());
            assert("tree"@.len() != "ls-archived"@.len());
        },
        CommandView::History(_) => {
            assert("history"@.len() != "mode"@.len());
            assert("history"@.len() != "build"@.len());
            assert("history"@.len() != "b"@.len());
            assert("history"@.len() != "build-target"@.len());
            assert("history"@.len() != "ls"@.len());
            assert("history"@.len() != "ls-all"@.len());
            assert("history"@.len() != "ls-archived"@.len());
            assert("history"@.len() != "tree"@.len());
            assert("history"@.len() != "caps"@.len());
            assert("history"@.len() != "clear"@.len());
            assert("history"@.len() != "help"@.len());
            assert("history"@.len() != "exit"@.len());
            assert("history"@.len() != "quit"@.len());
            assert("history"@.len() != "view"@.len());
            assert("history"@.len() != "v"@.len());
        },
        CommandView::CapabilityMap => {
            assert("caps"@[0] != "mode"@[0]);
            assert("caps"@.len() != "build"@.len());
            assert("caps"@.len() != "b"@.len());
            assert("caps"@.len() != "build-target"@.len());
            assert("caps"@.len() != "ls"@.len());
            assert("caps"@.len() != "ls-all"@.len());
            assert("caps"@.len() != "ls-archived"@.len());
            assert("caps"@[0] != "tree"@[0]);
        },
        CommandView::Diff(_, _) => {
            assert("diff"@[0] != "mode"@[0]);
            assert("diff"@.len() != "build"@.len());
            assert("diff"@.len() != "b"@.len());
            assert("diff"@.len() != "build-target"@.len());
            assert("diff"@.len() != "ls"@.len());
            assert("diff"@.len() != "ls-all"@.len());
            assert("diff"@.len() != "ls-archived"@.len());
            assert("diff"@[0] != "tree"@[0]);
            assert("diff"@[0] != "caps"@[0]);
            assert("diff"@.len() != "clear"@.len());
            assert("diff"@[0] != "help"@[0]);
            assert("diff"@[0] != "exit"@[0]);
            assert("diff"@[0] != "quit"@[0]);
            assert("diff"@[0] != "view"@[0]);
            assert("diff"@.len() != "v"@.len());
            assert("diff"@.len() != "history"@.len());
        },
        CommandView::View(_) => {
            assert("view"@[0] != "mode"@[0]);
            assert("view"@.len() != "build"@.len());
            assert("view"@.len() != "b"@.len());
            assert("view"@.len() != "build-target"@.len());
            assert("view"@.len() != "ls"@.len());
            assert("view"@.len() != "ls-all"@.len());
            assert("view"@.len() != "ls-archived"@.len());
            assert("view"@[0] != "tree"@[0]);
            assert("view"@[0] != "caps"@[0]);
            assert("view"@.len() != "clear"@.len());
            assert("view"@[0] != "help"@[0]);
            assert("view"@[0] != "exit"@[0]);
            assert("view"@[0] != "quit"@[0]);
        },
        CommandView::Clear => {
            assert("clear"@.len() != "mode"@.len());
            assert("clear"@[0] != "build"@[0]);
            assert("clear"@.len() != "b"@.len());
            assert("clear"@.len() != "build-target"@.len());
            assert("clear"@.len() != "ls"@.len());
            assert("clear"@.len() != "ls-all"@.len());
            assert("clear"@.len() != "ls-archived"@.len());
            assert("clear"@.len() != "tree"@.len());
            assert("clear"@.len() != "caps"@.len());
        },
        CommandView::Help => {
            assert("help"@[0] != "mode"@[0]);
            assert("help"@.len() != "build"@.len());
            assert("help"@.len() != "b"@.len());
            assert("help"@.len() != "build-target"@.len());
            assert("help"@.len() != "ls"@.len());
            assert("help"@.len() != "ls-all"@.len());
            assert("help"@.len() != "ls-archived"@.len());
            assert("help"@[0] != "tree"@[0]);
            assert("help"@[0] != "caps"@[0]);
            assert("help"@.len() != "clear"@.len());
        },
        CommandView::Exit => {
            assert("exit"@[0] != "mode"@[0]);
            assert("exit"@.len() != "build"@.len());
            assert("exit"@.len() != "b"@.len());
            assert("exit"@.len() != "build-target"@.len());
            assert("exit"@.len() != "ls"@.len());
            assert("exit"@.len() != "ls-all"@.len());
            assert("exit"@.len() != "ls-archived"@.len());
            assert("exit"@[0] != "tree"@[0]);
            assert("exit"@[0] != "caps"@[0]);
            assert("exit"@.len() != "clear"@.len());
            assert("exit"@[0] != "help"@[0]);
        },
    }
}

/// What the prompt does with a typed line.
pub enum LineAction {
    Skip,
    Run(Command),
    Unknown,
}

/// What a typed line asks for: nothing for a blank line (`None`), else
/// the command its first word and the rest after the first space make,
/// if they make one.
pub open spec fn line_spec(line: Seq<char>) -> Option<Option<CommandView>> {
    let t = trim_white(line);
    if t.len() == 0 {
        None
    } else {
        let parts = split_once(t, ' ');
        Some(parse_command(parts.0, parts.1))
    }
}

/// What the prompt does with `line`.
pub fn interpret_line(line: &str) -> (r: LineAction)
    ensures
        match (r, line_spec(line@)) {
            (LineAction::Skip, None) => true,
            (LineAction::Unknown, Some(None)) => true,
            (LineAction::Run(c), Some(Some(v))) => c@ == v,
            _ => false,
        },
{
    let input = trim_whitespace(line);
    if input.as_str().unicode_len() == 0 {
        return LineAction::Skip;
    }
    let (cmd, arg) = split_at_first(input.as_str(), ' ');
    let parsed = match &arg {
        Some(a) => Command::from_str(cmd.as_str(), Some(a.as_str())),
        None => Command::from_str(cmd.as_str(), None),
    };
    match parsed {
        Some(c) => LineAction::Run(c),
        None => LineAction::Unknown,
    }
}

} // verus!
