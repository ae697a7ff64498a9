use vstd::prelude::*;

use crate::color::{colorize, colorized, ANSIColors};
use crate::text::{char_vecs, chars_of, string_of, words, words_exec};

verus! {

/// The built-in commands the shell can run.
#[derive(Clone, Copy, PartialEq, Eq, Structural, Debug)]
pub enum Handler {
    Help,
    Hello,
    Cat,
    Cd,
    Cp,
    Ls,
    Sleep,
}

/// A command: the name it is invoked by and what runs it.
pub struct Command {
    pub name: String,
    pub handler: Handler,
}

/// The shell's command table: a map from names to commands, kept as a vector in
/// which no name occurs twice (`wf`), so that what it holds can be stated.
pub struct Shell {
    pub commands: Vec<Command>,
}

/// The handler a name is bound to, searching the table from the front.
pub open spec fn lookup(cmds: Seq<Command>, name: Seq<char>) -> Option<Handler>
    decreases cmds.len(),
{
    if cmds.len() == 0 {
        None
    } else if cmds[0].name@ == name {
        Some(cmds[0].handler)
    } else {
        lookup(cmds.skip(1), name)
    }
}

/// What running a command line amounts to.
pub enum Execution {
    /// Run the handler with the arguments.
    Run { handler: Handler, arguments: Vec<String> },
    /// No command has that name.
    NotFound { name: String },
}

/// The handler of the first command named `n`, at index `i`.
proof fn lemma_lookup_first(cmds: Seq<Command>, i: int, n: Seq<char>)
    requires
        0 <= i < cmds.len(),
        cmds[i].name@ == n,
        forall|j: int| 0 <= j < i ==> (#[trigger] cmds[j]).name@ != n,
    ensures
        lookup(cmds, n) == Some(cmds[i].handler),
    decreases i,
{
    if i > 0 {
        assert(cmds[0].name@ != n);
        lemma_lookup_first(cmds.skip(1), i - 1, n);
        assert(cmds.skip(1)[i - 1] == cmds[i]);
    }
}

/// No command named `n`: no handler.
proof fn lemma_lookup_absent(cmds: Seq<Command>, n: Seq<char>)
    requires
        forall|j: int| 0 <= j < cmds.len() ==> (#[trigger] cmds[j]).name@ != n,
    ensures
        lookup(cmds, n) is None,
    decreases cmds.len(),
{
    if cmds.len() > 0 {
        assert(cmds[0].name@ != n);
        lemma_lookup_absent(cmds.skip(1), n);
    }
}

proof fn lemma_lookup_replace(cmds: Seq<Command>, i: int, c: Command)
    requires
        0 <= i < cmds.len(),
        cmds[i].name@ == c.name@,
        forall|j: int| 0 <= j < i ==> (#[trigger] cmds[j]).name@ != c.name@,
    ensures
        forall|n: Seq<char>| #![auto] lookup(cmds.update(i, c), n) == (if n == c.name@ {
            Some(c.handler)
        } else {
            lookup(cmds, n)
        }),
    decreases i,
{
    let g = cmds.update(i, c);
    if i > 0 {
        assert(cmds[0].name@ != c.name@);
        lemma_lookup_replace(cmds.skip(1), i - 1, c);
        assert(g.skip(1) =~= cmds.skip(1).update(i - 1, c));
    } else {
        assert(g.skip(1) =~= cmds.skip(1));
    }
    assert forall|n: Seq<char>| #![auto] lookup(g, n) == (if n == c.name@ {
        Some(c.handler)
    } else {
        lookup(cmds, n)
    }) by {
        assert(g[0] == if i == 0 { c } else { cmds[0] });
        if i > 0 {
            let h = cmds.skip(1).update(i - 1, c);
            assert(lookup(h, n) == (if n == c.name@ {
                Some(c.handler)
            } else {
                lookup(cmds.skip(1), n)
            }));
            assert(g.skip(1) == h);
        }
    }
}

proof fn lemma_lookup_push(cmds: Seq<Command>, c: Command)
    requires
        forall|j: int| 0 <= j < cmds.len() ==> (#[trigger] cmds[j]).name@ != c.name@,
    ensures
        forall|n: Seq<char>| #![auto] lookup(cmds.push(c), n) == (if n == c.name@ {
            Some(c.handler)
        } else {
            lookup(cmds, n)
        }),
    decreases cmds.len(),
{
    let g = cmds.push(c);
    if cmds.len() > 0 {
        assert(cmds[0].name@ != c.name@);
        lemma_lookup_push(cmds.skip(1), c);
        assert(g.skip(1) =~= cmds.skip(1).push(c));
    } else {
        assert(g.skip(1) =~= Seq::<Command>::empty());
    }
    assert forall|n: Seq<char>| #![auto] lookup(g, n) == (if n == c.name@ {
        Some(c.handler)
    } else {
        lookup(cmds, n)
    }) by {
        if cmds.len() > 0 {
            assert(g[0] == cmds[0]);
            let h = cmds.skip(1).push(c);
            assert(lookup(h, n) == (if n == c.name@ {
                Some(c.handler)
            } else {
                lookup(cmds.skip(1), n)
            }));
            assert(g.skip(1) == h);
        } else {
            assert(g[0] == c);
            assert(lookup(g.skip(1), n) == None::<Handler>);
        }
    }
}

impl Shell {
    /// The handler a name runs, if any.
    pub open spec fn handler_of(&self, name: Seq<char>) -> Option<Handler> {
        lookup(self.commands@, name)
    }

    /// No two commands in the table share a name: the table is a map from names.
    pub open spec fn wf(&self) -> bool {
        forall|i: int, j: int|
            0 <= i < j < self.commands@.len() ==> (#[trigger] self.commands@[i]).name@
                != (#[trigger] self.commands@[j]).name@
    }

    /// An empty command table.
    pub fn new() -> (s: Shell)
        ensures
            s.wf(),
            s.commands@.len() == 0,
            forall|n: Seq<char>| s.handler_of(n) is None,
    {
        Shell { commands: Vec::new() }
    }

    /// Registers a command; a command registered earlier under the same name is
    /// replaced (`HashMap::insert`), so no name is ever in the table twice.
    pub fn register(&mut self, command: Command)
        ensures
            old(self).wf() ==> final(self).wf(),
            final(self).commands@.len() == old(self).commands@.len() + if old(self).handler_of(
                command.name@,
            ) is Some {
                0int
            } else {
                1int
            },
            final(self).handler_of(command.name@) == Some(command.handler),
            forall|n: Seq<char>| n != command.name@ ==> final(self).handler_of(n) == old(
                self,
            ).handler_of(n),
    {
        let mut i: usize = 0;
        while i < self.commands.len()
            invariant
                i <= self.commands.len(),
                self.commands@ == old(self).commands@,
                forall|j: int| 0 <= j < i ==> (#[trigger] self.commands@[j]).name@ != command.name@,
            decreases self.commands.len() - i,
        {
            if self.commands[i].name == command.name {
                let ghost before = self.commands@;
                let ghost c = command;
                self.commands.set(i, command);
                proof {
                    lemma_lookup_first(before, i as int, c.name@);
                    lemma_lookup_replace(before, i as int, c);
                    assert(forall|k: int| 0 <= k < self.commands@.len() ==> (#[trigger] self.commands@[k]).name@ == before[k].name@);
                }
                return;
            }
            i = i + 1;
        }
        let ghost before = self.commands@;
        let ghost c = command;
        self.commands.push(command);
        proof {
            lemma_lookup_absent(before, c.name@);
            lemma_lookup_push(before, c);
            assert(forall|k: int| 0 <= k < before.len() ==> (#[trigger] self.commands@[k]) == before[k]);
        }
    }

    /// The handler registered under `name`.
    pub fn lookup(&self, name: &str) -> (r: Option<Handler>)
        ensures
            r == self.handler_of(name@),
    {
        let target = String::from_str(name);
        let mut i: usize = 0;
        assert(self.commands@.skip(0) =~= self.commands@);
        while i < self.commands.len()
            invariant
                i <= self.commands.len(),
                target@ == name@,
                self.handler_of(name@) == lookup(self.commands@.skip(i as int), name@),
            decreases self.commands.len() - i,
        {
            assert(self.commands@.skip(i as int)[0] == self.commands@[i as int]);
            if self.commands[i].name == target {
                return Some(self.commands[i].handler);
            }
            assert(self.commands@.skip(i as int).skip(1) =~= self.commands@.skip(i + 1));
            i = i + 1;
        }
        assert(self.commands@.skip(i as int) =~= Seq::<Command>::empty());
        None
    }

    /// Runs a command by name: its handler with the arguments, or not found.
    pub fn execute(&self, command_name: &str, arguments: Vec<String>) -> (r: Execution)
        ensures
            match self.handler_of(command_name@) {
                Some(h) => r matches Execution::Run { handler, arguments: a } && handler == h && a
                    == arguments,
                None => r matches Execution::NotFound { name } && name@ == command_name@,
            },
    {
        match self.lookup(command_name) {
            Some(handler) => Execution::Run { handler, arguments },
            None => Execution::NotFound { name: String::from_str(command_name) },
        }
    }
}

/// Splits a line of input into the command name and its arguments, at whitespace;
/// `None` for a blank line.
pub fn parse_command_line(input: &str) -> (r: Option<(String, Vec<String>)>)
    ensures
        words(input@).len() == 0 ==> r is None,
        words(input@).len() > 0 ==> (r matches Some((name, args)) && name@ == words(input@)[0]
            && crate::text::views(args@) == words(input@).skip(1)),
{
    let v = chars_of(input);
    let ws = words_exec(v.as_slice());
    let ghost w = char_vecs(ws@);
    if ws.len() == 0 {
        return None;
    }
    let name = string_of(ws[0].as_slice());
    let mut args: Vec<String> = Vec::new();
    let mut i: usize = 1;
    while i < ws.len()
        invariant
            w == char_vecs(ws@),
            1 <= i <= ws.len(),
            crate::text::views(args@) == w.subrange(1, i as int),
        decreases ws.len() - i,
    {
        let a = string_of(ws[i].as_slice());
        let ghost before = args@;
        args.push(a);
        assert(crate::text::views(args@) =~= crate::text::views(before).push(a@));
        assert(crate::text::views(args@) =~= w.subrange(1, i + 1));
        i = i + 1;
    }
    assert(w.subrange(1, ws.len() as int) =~= w.skip(1));
    Some((name, args))
}

/// The prompt: the user name in green, `@`, the system name, `: `, the directory in
/// blue, and ` $ `.
pub open spec fn prompt_text(user: Seq<char>, os: Seq<char>, dir: Seq<char>) -> Seq<char> {
    colorized(user, ANSIColors::GREEN@) + "@"@ + os + ": "@ + colorized(dir, ANSIColors::BLUE@)
        + " $ "@
}

pub fn format_prompt(username: &str, os_name: &str, directory: &str) -> (r: String)
    ensures
        r@ == prompt_text(username@, os_name@, directory@),
{
    let mut out = colorize(username, ANSIColors::GREEN);
    out.append("@");
    out.append(os_name);
    out.append(": ");
    let d = colorize(directory, ANSIColors::BLUE);
    out.append(d.as_str());
    out.append(" $ ");
    out
}

/// The current user's name (`whoami::username`). It depends on the system, so
/// nothing is stated of it.
#[verifier::external_body]
fn current_user_name() -> (r: String) {
    whoami::username()
}

/// The operating system's name (`sys_info::os_type`), or `None` when it cannot be
/// read. It depends on the system, so nothing is stated of it.
#[verifier::external_body]
fn os_type_name() -> (r: Option<String>) {
    sys_info::os_type().ok()
}

/// The prompt for `directory`, with the current user's name and the system's name;
/// `None` when the system's name cannot be read.
pub fn prompt(directory: &str) -> (r: Option<String>)
    ensures
        r matches Some(p) ==> exists|user: Seq<char>, os: Seq<char>| p@ == prompt_text(user, os, directory@),
{
    let username = current_user_name();
    match os_type_name() {
        Some(os) => Some(format_prompt(username.as_str(), os.as_str(), directory)),
        None => None,
    }
}

} // verus!
