//! The commands, their flags and the help topics, as they are documented.

use crate::cli::{Cmd, Topic};
use crate::flags::{flag, switch, Flag};
use vstd::prelude::*;

verus! {

/// What `apex help server` says of it.
pub const SERVER: &'static str = "\
Server runs the daemon on the socket, in the foreground, with one session
(the -session flag; default) to begin with. The daemon holds every
session's state; clients attach to it over the socket, or from other
machines through ssh (see apex help sessions). It ignores SIGHUP.

Attach and new-session start a daemon themselves when none answers, so
server is for running one by hand, under a supervisor, say.";

/// What `apex help ls` says of it.
pub const LS: &'static str = "\
Ls prints the name of every session on the daemon, one per line.";

/// What `apex help stop` says of it.
pub const STOP: &'static str = "\
Stop asks the daemon to exit. Every session ends with it: unsaved text
is lost, terminals are closed. Use it to let a daemon of an old build go
before attaching with a new one (see apex help sessions).";

/// What `apex help new-session` says of it.
pub const NEW_SESSION: &'static str = "\
New-session makes a session called NAME on the daemon, starting a daemon
if none answers. Making a session that exists is fine: it is there.

A new session runs its profile: ~/.apex/profile on the daemon's host,
then the creator's (see apex help scripts).";

/// What `apex help end-session` says of it.
pub const END_SESSION: &'static str = "\
End-session ends the session NAME (the current one when omitted): its
commands and terminals are killed, everything attached to it is told
and cut off (a window on it goes offline, saying so), and the session
is gone from the daemon, which keeps running for the others. It is
refused while any of its windows has unsaved changes, unless -f. The
picker's end on a session row does the same, and so does End in the
top row of a window (End -f forces), which then closes the window.";

/// What `apex help rename-session` says of it.
pub const RENAME_SESSION: &'static str = "\
Rename-session gives the session FROM (the current session when omitted)
the name TO. Everything attached stays attached; session names are
labels, and clients follow the rename.";

/// What `apex help attach` says of it.
pub const ATTACH: &'static str = "\
Attach opens the app (apex-ui) on a session: the current one, SESSION on
this machine's daemon, or DEST/SESSION on a destination reached through
its provider (user@host over ssh, or provider:name; see apex help
sessions), where apex is installed first. A session URL names both. FILEs
are opened in the session.

With -stdio, attach instead copies bytes between the daemon's socket and
its own stdin and stdout, starting the daemon if none answers. That is
what runs on a host: `ssh host apex -session=NAME attach -stdio` is the
whole remote story.";

/// What `apex help new` says of it.
pub const NEW: &'static str = "\
New makes a new, empty window in the session and prints its id. When
stdin is not a terminal, its content goes into the window:

	./somecommand | apex new

A LABEL names the window (relative to the current directory when it is
not absolute); it can be edited in the tag later, and Put writes the
window to the name in its tag. See apex help windows.";

/// What `apex help open` says of it.
pub const OPEN: &'static str = "\
Open opens each FILE (relative to the current directory) in the first
column, as B2 on `New FILE` would, and prints the id and name of each
window. A file already open gets no second window.";

/// What `apex help win` says of it.
pub const WIN: &'static str = "\
Win list prints every window: its id, a mark (* for unsaved text, > for
a live window: a process behind it, a terminal's or a win's, which is
neither clean nor dirty), and its name, column by column. Win del WIN deletes a window as Del would: a
dirty window is warned once, and deleted the second time. WIN is a window
id or a unique substring of a name (see apex help windows).";

/// What `apex help text` says of it.
pub const TEXT: &'static str = "\
Text read prints the body of window WIN. With -addr, only the text the
address selects, in the Edit language's address syntax: a line range
(2,5), a regexp (/func main/), or anything Edit takes.";

/// What `apex help edit` says of it.
pub const EDIT: &'static str = "\
Edit runs PROGRAM, in acme's Edit language (sam's commands), on the body
of window WIN, as `Edit PROGRAM` in its tag would:

	apex edit main.go ',x/foo/ c/bar/'";

/// What `apex help sel` says of it.
pub const SEL: &'static str = "\
Sel prints the selection of window WIN as two character offsets, or with
Q0 and Q1 sets it.";

/// What `apex help exec` says of it.
pub const EXEC: &'static str = "\
Exec runs COMMAND as B2 on it would: in the context of window WIN, or of
the top row when no window is given. Built-ins (Put, Del, Look, ...),
rule verbs and shell commands alike:

	apex exec main.go Put
	apex exec 'Newterm'";

/// What `apex help events` says of it.
pub const EVENTS: &'static str = "\
Events prints every entry appended to the session, as it happens, one
JSON object per line: the shard, its sequence number, the attachment that
appended it, and the operation. It runs until the connection ends. This
is acme's event file, generalised: a tool that wants to follow edits,
selections, or windows reads this.";

/// What `apex help ps` says of it.
pub const PS: &'static str = "\
Ps lists the commands the session's server is running: what B2 started
from a tag (shell commands, Win, the profile and attach scripts, tools
started from them), as the top row names them. One per line: the pid,
the name (the first word, what Kill and apex kill go by), where it was
started from (a window id, or top), when, its directory, and the whole
command line. Terminals' shells are listed too while they run, named
after the shell (or the command Newterm was given). A program may say
what it is called (apex tool lsp is lsp, not apex); one the server did
not start is listed for as long as it stays connected.";

/// What `apex help kill` says of it.
pub const KILL: &'static str = "\
Kill ends every running command named NAME, or the one with pid PID, as
Kill in the top row does: the command's process group is sent SIGTERM,
so what a shell started goes with it. The commands left running are
listed afterwards, as ps lists them.";

/// What `apex help term` says of it.
pub const TERM: &'static str = "\
Term new makes a terminal window running the user's shell (the
Newterm.shell setting, else the daemon's $SHELL), or CMD through it (as
Newterm does), and prints the terminal's id. Term send
types TEXT into terminal TERM; a final newline is the Enter key. Term
read prints the terminal's screen.";

/// What `apex help web` says of it.
pub const WEB: &'static str = "\
Web open makes a web window on URL in the session, as Newweb URL in a
tag does, and prints the window's id. The page is rendered by the
client showing the session; only the URL is session state (its name in
the tag), so a reattach loads the page anew, and where the page goes
the name follows, with Back and Fwd along the navigation stack.

Web alone reads HTML on stdin into a window shown as a page: the HTML
is the window's text (edit, Put and Get it as text; the page follows
every change in place), named NAME, or +web in the current directory.
Relative links in it resolve against the window's directory on the
host (apexfile://). A link followed in such a page opens a web window
on it.";

/// What `apex help plumb` says of it.
pub const PLUMB: &'static str = "\
Plumb sends TEXT through the session's plumbing rules from the current
directory, as B3 on it would: the first rule that matches and is taken
acts, and with none left the text is looked for in the window (Look).
With -dry-run, plumb prints what each rule would do instead. With -edit
only rules that open in the session are tried, and failing those TEXT is
opened as a path; that is what B does.

Plumb rule ls prints the table in the order it is tried: the rule's id,
its owner, its priority, and the flags that make it. Plumb rule rm ID
removes one. Plumb rule add installs one, owned by the session (or by
this attachment with -mine, gone when it detaches):

	apex plumb rule add -text='https?://\\S+' -client=open -args='$0'
	apex plumb rule add -verb=Preview -file='\\.md$' -run='open -a Marked $file' -priority=10
	apex plumb rule add -file='\\.go$' -text='\\w+' -tool=lsp -priority=10

See apex help rules for the predicates, the actions, and the templates.";

/// What `apex help B` says of it.
pub const B: &'static str = "\
B opens each FILE in the session from the current directory, at LINE when
given, through the plumbing rules that open in the session (see apex
help rules), else as a path. It is plan 9's B: a shell in an apex terminal
has it as a function.";

/// What `apex help editor` says of it.
pub const EDITOR: &'static str = "\
Editor is plan9port's editinacme for apex, for use as $EDITOR: it opens
FILE in the session (through the rules that open in the session, as B
does, so an open window is shown and the pointer warped to it), waits
until the file's window is deleted, and exits. Terminals and commands
have EDITOR set to apex-editor, a link to the apex binary beside it that
does the same (one word, since zsh and rc do not split $EDITOR into
words), unless the profile says otherwise.";

/// What `apex help env` says of it.
pub const ENV: &'static str = "\
Env sets variables in the session's environment: what every terminal and
command started from then on gets, beyond the daemon's own. With no
arguments it prints the environment.

With -import, what env's own environment has changed, against what the
session gives a command, is applied to the session's: variables set or
changed are set there, and variables dropped are unset. The profile's
exit hook runs this, so the profile's environment at its end is the
session's, rc functions included (see apex help scripts).";

/// What `apex help set` says of it.
pub const SET: &'static str = "\
Set records a setting in the session: the session's own, or the attaching
client's when run from its attach script (see apex help scripts), gone
when that client detaches. A client reads its own settings first, then
the session's. With no arguments, set prints every setting with its
owner. Settings in use:

	Preview.EXT CMD   the converter for files with that extension: a
	                  command reading the file on stdin, writing HTML
	                  (apex help preview); .md and .markdown have
	                  'apex md', .html, .htm and .svg 'cat' unless set;
	                  an empty value turns one off
	Preview APP       the app a rule's own -client=preview falls back to
	lsp.LANG CMD      the language server for LANG (apex help tool)
	lsp.root MARKER   an overriding workspace-root marker for every language;
	lsp.LANG.root MARKER overrides it for one language
	Newterm.shell SH  the shell Newterm runs (a path, or a name on the
	                  daemon's PATH); the daemon's $SHELL otherwise";

/// What `apex help cat` says of it.
pub const CAT: &'static str = "\
Cat prints the file PATH as it is on the session's host, whatever machine
the command runs on (apex io GET file://PATH).";

/// What `apex help io` says of it.
pub const IO: &'static str = "\
Io sends one request on the session's I/O plane, the streams beside the
log that clients use for files and, later, the network (WEB.md), and
prints the answer's body. The status goes to stderr when it is not 200
and the exit status is 1 then. What the host answers today:

	GET file://PATH    the file's bytes
	PUT file://PATH    stdin written to the file
	GET -watch         the file now and again on every change, each
	                   version's contents to stdout, until interrupted
	GET http://URL     fetched by the host, on its network (any method;
	                   stdin is the body when it is not a terminal)
	CONNECT HOST:PORT  a byte tunnel to there from the host: stdin goes
	                   in, what comes back goes to stdout (nc)

The plane is HTTP-shaped: a request opens a numbered stream, the answer
is a status and a body, and a watch or a tunnel is a stream that does
not end on its own.";

/// What `apex help preview` says of it.
pub const PREVIEW: &'static str = "\
Preview shows FILE as a page (Preview in its tag does the same): the
file's buffer, opened if it is not, goes through the converter its
extension names in the settings (Preview.EXT, see apex help set) and
the HTML is a window named FILE+Preview beside it, kept so as the
buffer changes, unsaved edits included. The converter runs on the
host as apex tool preview FILE, a command named preview (apex ps,
Kill preview); it ends with either window. Relative links in the page
resolve in the file's directory (apexfile://).";

/// What `apex help md` says of it.
pub const MD: &'static str = "\
Md converts Markdown on stdin to an HTML page on stdout: CommonMark
with tables, footnotes, strikethrough and task lists, styled as GitHub
renders Markdown (its own stylesheet, fonts included). Every block is preceded by an empty span carrying the
source line it starts on (data-line, counted from 1), which is how a
preview follows dot; a converter of your own may do the same. It is the
converter Preview uses for .md and .markdown files unless a setting
names another.";

/// What `apex help tool` says of it.
pub const TOOL: &'static str = "\
Tool runs one of the tools that come with apex. None is privileged: each
attaches to the session like anything else on this command line and works
through the same protocol.

apex tool win [CMD...] is acme's win: a shell ($acmeshell, rc by default;
or CMD) in a text window named dir/-host in the last column, the editable
transcript. The shell's output is inserted at the output point; what you
type after it goes to the shell at each newline (or ^D), and the point
moves past it; ^C or DEL typed interrupts and drops the typing; Send
appends the snarf buffer and a newline; the tools menu offers Interrupt
and EOF; labels in the output (awd) name the window. A program that
turns echo off (a password) is served raw: keys go at once and leave the
window. Win in a tag runs this in the window's directory; Kill Win ends
it. Newterm is the other kind of shell window: a real terminal, running
the user's shell.

apex tool lsp attaches as the tool named lsp and runs language
servers for the files open in it, one per workspace root: gopls,
rust-analyzer, pyright, typescript-language-server and clangd unless a
setting lsp.LANG names another command. The optional lsp.root setting names
a workspace marker that takes precedence over the built-in language markers;
lsp.LANG.root overrides it for one language. Documents are opened as buffers
appear and every edit is fed incrementally. Diagnostics go to root/+lsp,
one plumbable file:line:col: message per line.

Its rules, gone when it exits: cmd-B3 on an identifier in a source file
goes to the definition (B3 itself stays acme's look; on a laptop, where
cmd-click is B3, ctrl-cmd-click is cmd-B3), and the tools menu of a
source window offers Def Refs Type Hov Sig Fmt Rn. Definitions open and select; references, hover and signatures go
to +Errors; Fmt replaces the text with the server's formatting; Rn NAME
renames. Back and Fwd, offered everywhere, walk the session's navigation
stack: every jump (Def, B3 on file:line, apex B, the app's cmd-p) records
where it left from, and Back returns there, Fwd undoes a Back; cmd-[ and
shift-cmd-B3 are Back, cmd-] is Fwd.

Start it from the host's profile: apex tool lsp & (see apex help scripts).
APEX_LSP_DEBUG=1 traces the JSON-RPC on stderr.";

/// What `apex help label` says of it.
pub const LABEL: &'static str = "\
Label gives the window of the terminal it runs in the title TEXT,
through the escape sequence acme's win reads (plan9port's label). A
terminal's window is named DIR/-TITLE, DIR being the directory the shell
last reported (OSC 7; apex awd reports it) and TITLE its title (a label,
or an xterm title); with no directory ever reported the name is -TITLE,
and before either it is where the shell started and the host.";

/// What `apex help awd` says of it.
pub const AWD: &'static str = "\
Awd reports the terminal's working directory (OSC 7) and titles the
window LABEL (the host's name unless given), so the window is named
PWD/-LABEL, as plan9port's awd names it. rc does this on every cd in an
apex terminal; for zsh, bash and fish see examples/profile.";

/// What `apex help version` says of it.
pub const VERSION: &'static str = "\
Version prints this build's id, a hash of the sources it was built from.
A daemon says its own on every connection; a client of another build
refuses to go on and says so.";

/// What `apex help sessions` says.
pub const ON_SESSIONS: &'static str = "\
A daemon holds sessions; a session is a set of windows, buffers and
terminals on one machine, with its state kept by the daemon so that
clients can attach and detach without losing anything. Every session is a
URL: local:///NAME on this machine's daemon, ssh://user@host/NAME on a
host reached over ssh, PROVIDER://ARG/NAME through a provider. The
default session is called default.

A provider is a command apex-remote-PROVIDER on the PATH that runs a
command on a destination: apex-remote-PROVIDER DEST COMMAND. ssh is built
in. Attaching through a provider installs this build's apex and rc on the
destination (in ~/.apex/bin), starts a daemon there if none answers, and
bridges frames through `apex attach -stdio` run there.

A daemon says its build id first on every connection. A client of another
build stops there and says what to do: when the daemon's sessions can be
let go, apex stop on its machine, then attach again.";

/// What `apex help scripts` says.
pub const ON_SCRIPTS: &'static str = "\
Two scripts, like a shell's profile and rc. When a session is made, one rc
on its host sources ~/.apex/profile there, then the creator's
~/.apex/profile (shipped along; skipped when it is the same file). It runs
like any command, named profile in the top row with its output in
+Errors, with apexsession, APEX_SOCKET and apexclient set, so apex in it
configures the session: apex open, apex exec Newcol, apex set, apex
plumb rule add, apex tool lsp &. The profile's environment at its end
is the session's: variables it sets or changes (x=y, path=($home/bin
$path)) and functions it defines (fn g { ... }, exported as rc does)
are what every terminal and command gets from then on, and what it
unsets is gone. An exit hook (rc's sigexit) sends it back through apex
env -import, so a profile that defines its own sigexit forgoes this.

Every time a client attaches, its ~/.apex/attach runs on the host the
same way, with apexattachment naming the attaching client, so apex set
there records that client's own settings (apex help set). See
examples/profile for one that has shells name their windows on cd.";

/// What `apex help rules` says.
pub const ON_RULES: &'static str = "\
B3 (and apex plumb) walks the session's rule table in priority order,
highest first, then by age; the first rule that matches and is taken ends
the walk, and with none left the text is looked for in the window (Look).
A rule's verb is the command it answers: plumb is B3; any other verb is
offered in the tools menu (B4, or shift-click) of every window the rule
applies to, and B2 on the word does the same. The verb exec is special:
it takes every B2 command in the windows it applies to that no builtin
and no other verb took, the whole line as its text (win's rule, so that
B2 on an old command line runs it again); it is no word in the menu.

Predicates (all given must hold):
	-text=RE      the plumbed text (a verb's arguments) matches RE, whole;
	              its groups bind $0..$9
	-file=RE      the window's name matches RE
	-kind=K       file, dir, term, errors or web
	-isfile=EXPR  EXPR, expanded, is a file (relative to the window's directory)
	-isdir=EXPR   ... a directory
Actions (exactly one):
	-edit=EXPR    open EXPR (name, or name:line) in the session
	-run=CMD      run CMD on the host in the window's directory, the
	              selection on stdin, output to dir/+Errors
	-client=VERB -args=ARGS
	              ask the UI that asked to do VERB with ARGS (open a URL,
	              say); a UI that cannot refuses, and the walk goes on
	-tool=NAME    ask the tool attached as NAME; it answers within a second
	              or is taken to refuse (NACK), and the walk goes on
Templates expand $0..$9, $file, $dir, $win, $line and $sel.

Rules from the command line are the session's. A UI installs its own on
attach (URLs go to the platform's open; Preview where a Preview.EXT
setting names an app), a tool those naming it; both go when their owner
does. The session starts with three rules at priority -100 that open name
and name:line when they exist, as B3 always did. apex plumb -dry-run TEXT
prints what each rule would do.";

/// What `apex help windows` says.
pub const ON_WINDOWS: &'static str = "\
Commands take a window as WIN: its id (apex win list), or a unique
substring of its name. A window's name is the first word of its tag; a
file's window is named by its path, a directory's ends in /, a terminal's
is dir/-host (or dir/-cmd), command output goes to dir/+Errors.

The name in a tag can be edited: type a new one and Put writes the window
there, the buffer taking the name; ^F completes file names in the tag.
That is how an empty window from New (or apex new, with stdin in it)
becomes a file.";

/// A flag goes by this name, takes a value or not, and has this help.
pub open spec fn is_flag(f: Flag, boolean: bool, name: Seq<char>, help: Seq<char>) -> bool {
    f.boolean == boolean && f.name@ == name && f.help@ == help
}

/// A command goes by this name, is used so, and does this.
pub open spec fn is_cmd(c: Cmd, name: Seq<char>, usage: Seq<char>, short: Seq<char>, flags: nat, long: Seq<char>) -> bool {
    &&& c.name@ == name
    &&& c.usage@ == usage
    &&& c.short@ == short
    &&& c.flags@.len() == flags
    &&& c.long@ == long
}

/// A topic goes by this name, and says this.
pub open spec fn is_topic(t: Topic, name: Seq<char>, short: Seq<char>, text: Seq<char>) -> bool {
    t.name@ == name && t.short@ == short && t.text@ == text
}

/// The flags that apply to every command.
pub fn global() -> (f: Vec<Flag>)
    ensures
        f@.len() == 3,
        is_flag(f@[0], false, "socket"@, "the daemon's socket (default $APEX_SOCKET, else $TMPDIR/apex-$USER/main.sock)"@),
        is_flag(f@[1], false, "session"@, "the session to work on (default $apexsession, $APEX_SESSION, else default)"@),
        is_flag(f@[2], true, "ensure-server"@, "start the daemon first if none answers on the socket"@),
{
    vec![
        flag("socket", "the daemon's socket (default $APEX_SOCKET, else $TMPDIR/apex-$USER/main.sock)"),
        flag("session", "the session to work on (default $apexsession, $APEX_SESSION, else default)"),
        switch("ensure-server", "start the daemon first if none answers on the socket"),
    ]
}

/// The flags of `apex plumb rule add`.
pub fn rule_flags() -> (f: Vec<Flag>)
    ensures
        f@.len() == 14,
        is_flag(f@[0], false, "verb"@, "the command the rule answers: plumb (B3, the default) or a word for the tools menu"@),
        is_flag(f@[1], false, "text"@, "the plumbed text (a verb's arguments) must match this regexp, whole; groups bind $0..$9"@),
        is_flag(f@[2], false, "file"@, "the window's name must match this regexp"@),
        is_flag(f@[3], false, "kind"@, "the window must be: file, dir, term or errors"@),
        is_flag(f@[4], false, "isfile"@, "this (expanded, relative to the window's directory) must be a file"@),
        is_flag(f@[5], false, "isdir"@, "... a directory"@),
        is_flag(f@[6], false, "edit"@, "open this (name or name:line) in the session"@),
        is_flag(f@[7], false, "run"@, "run this command on the host, in the window's directory, the selection on stdin"@),
        is_flag(f@[8], false, "client"@, "ask the UI to do this verb (open, preview); it may refuse"@),
        is_flag(f@[9], false, "args"@, "the argument for -client"@),
        is_flag(f@[10], false, "tool"@, "ask the tool attached under this name; it may refuse"@),
        is_flag(f@[11], false, "to"@, "where a -run command's output goes: errors (default) or window"@),
        is_flag(f@[12], false, "priority"@, "higher rules are tried first (default 0)"@),
        is_flag(f@[13], true, "mine"@, "owned by this attachment, gone when it detaches, rather than by the session"@),
{
    vec![
        flag("verb", "the command the rule answers: plumb (B3, the default) or a word for the tools menu"),
        flag("text", "the plumbed text (a verb's arguments) must match this regexp, whole; groups bind $0..$9"),
        flag("file", "the window's name must match this regexp"),
        flag("kind", "the window must be: file, dir, term or errors"),
        flag("isfile", "this (expanded, relative to the window's directory) must be a file"),
        flag("isdir", "... a directory"),
        flag("edit", "open this (name or name:line) in the session"),
        flag("run", "run this command on the host, in the window's directory, the selection on stdin"),
        flag("client", "ask the UI to do this verb (open, preview); it may refuse"),
        flag("args", "the argument for -client"),
        flag("tool", "ask the tool attached under this name; it may refuse"),
        flag("to", "where a -run command's output goes: errors (default) or window"),
        flag("priority", "higher rules are tried first (default 0)"),
        switch("mine", "owned by this attachment, gone when it detaches, rather than by the session"),
    ]
}

/// The commands.
pub fn commands() -> (c: Vec<Cmd>)
    ensures
        c@.len() == 32,
        is_cmd(c@[0], "server"@, "apex [-socket=PATH] [-session=NAME] server"@, "run the daemon in the foreground"@, 0, SERVER@),
        is_cmd(c@[1], "ls"@, "apex ls"@, "list the daemon's sessions"@, 0, LS@),
        is_cmd(c@[2], "stop"@, "apex stop"@, "stop the daemon, its sessions with it"@, 0, STOP@),
        is_cmd(c@[3], "new-session"@, "apex new-session NAME"@, "make a session"@, 0, NEW_SESSION@),
        is_cmd(c@[4], "end-session"@, "apex end-session [-f] [NAME]"@, "end a session"@, 1, END_SESSION@),
        is_flag(c@[4].flags@[0], true, "f"@, "end it even with unsaved windows"@),
        is_cmd(c@[5], "rename-session"@, "apex rename-session [FROM] TO"@, "rename a session"@, 0, RENAME_SESSION@),
        is_cmd(c@[6], "attach"@, "apex attach [-stdio] [[DEST/]SESSION | URL] [FILE...]"@, "open the app on a session, here or on a host"@, 1, ATTACH@),
        is_flag(c@[6].flags@[0], true, "stdio"@, "bridge the daemon's socket to stdin and stdout (what ssh runs on a host)"@),
        is_cmd(c@[7], "new"@, "apex new [LABEL]"@, "a new window, with stdin in it"@, 0, NEW@),
        is_cmd(c@[8], "open"@, "apex open FILE..."@, "open files"@, 0, OPEN@),
        is_cmd(c@[9], "win"@, "apex win list | apex win del WIN"@, "list windows, delete one"@, 0, WIN@),
        is_cmd(c@[10], "text"@, "apex text read [-addr=ADDR] WIN"@, "read a window's text"@, 1, TEXT@),
        is_flag(c@[10].flags@[0], false, "addr"@, "print only this address (sam syntax: 3,5 or /re/)"@),
        is_cmd(c@[11], "edit"@, "apex edit WIN PROGRAM"@, "run an Edit program on a window"@, 0, EDIT@),
        is_cmd(c@[12], "sel"@, "apex sel WIN [Q0 Q1]"@, "read or set a window's selection"@, 0, SEL@),
        is_cmd(c@[13], "exec"@, "apex exec [WIN] COMMAND"@, "run a command as B2 would"@, 0, EXEC@),
        is_cmd(c@[14], "events"@, "apex events [-shard=S]"@, "stream the session's entries"@, 1, EVENTS@),
        is_flag(c@[14].flags@[0], false, "shard"@, "only shards whose name starts with S (buffer, window, layout, term, meta)"@),
        is_cmd(c@[15], "ps"@, "apex ps"@, "the commands the session is running"@, 0, PS@),
        is_cmd(c@[16], "kill"@, "apex kill NAME|PID..."@, "end running commands"@, 0, KILL@),
        is_cmd(c@[17], "term"@, "apex term new [CMD...] | apex term send TERM TEXT | apex term read TERM"@, "terminals"@, 0, TERM@),
        is_cmd(c@[18], "web"@, "apex web open URL | apex web [-name NAME] <HTML"@, "web windows"@, 1, WEB@),
        is_flag(c@[18].flags@[0], false, "name"@, "the window's name (default DIR/+web)"@),
        is_cmd(c@[19], "plumb"@, "apex plumb [-dry-run] [-edit] TEXT | apex plumb rule add FLAGS | rm ID | ls"@, "plumb text; the rule table"@, 2, PLUMB@),
        is_flag(c@[19].flags@[0], true, "dry-run"@, "only say what each rule would do"@),
        is_flag(c@[19].flags@[1], true, "edit"@, "plan 9's B: only rules that open in the session, else TEXT as a path"@),
        is_cmd(c@[20], "B"@, "apex B FILE[:LINE]..."@, "open files in the session (plan 9's B)"@, 0, B@),
        is_cmd(c@[21], "editor"@, "apex editor FILE"@, "$EDITOR: open FILE, exit when its window is deleted"@, 0, EDITOR@),
        is_cmd(c@[22], "env"@, "apex env [-import] [KEY=VALUE...]"@, "the session's environment"@, 1, ENV@),
        is_flag(c@[22].flags@[0], true, "import"@, "this environment's changes become the session's"@),
        is_cmd(c@[23], "set"@, "apex set [KEY VALUE]"@, "a setting"@, 0, SET@),
        is_cmd(c@[24], "cat"@, "apex cat PATH"@, "the bytes of a file on the host"@, 0, CAT@),
        is_cmd(c@[25], "io"@, "apex io [-watch] METHOD URL [<BODY]"@, "a request on the session's I/O plane"@, 1, IO@),
        is_flag(c@[25].flags@[0], true, "watch"@, "keep the stream open: every change to the file comes again"@),
        is_cmd(c@[26], "preview"@, "apex preview FILE"@, "show FILE as a page, live"@, 0, PREVIEW@),
        is_cmd(c@[27], "md"@, "apex md <MARKDOWN"@, "Markdown on stdin to HTML on stdout"@, 0, MD@),
        is_cmd(c@[28], "tool"@, "apex tool win [CMD...] | apex tool lsp | apex tool preview FILE"@, "the tools that come with apex"@, 0, TOOL@),
        is_cmd(c@[29], "label"@, "apex label TEXT"@, "title this terminal's window"@, 0, LABEL@),
        is_cmd(c@[30], "awd"@, "apex awd [LABEL]"@, "name this terminal's window after its directory"@, 0, AWD@),
        is_cmd(c@[31], "version"@, "apex version"@, "print the build id"@, 0, VERSION@),
{
    vec![
        Cmd { name: "server", usage: "apex [-socket=PATH] [-session=NAME] server", short: "run the daemon in the foreground", flags: vec![], long: SERVER },
        Cmd { name: "ls", usage: "apex ls", short: "list the daemon's sessions", flags: vec![], long: LS },
        Cmd { name: "stop", usage: "apex stop", short: "stop the daemon, its sessions with it", flags: vec![], long: STOP },
        Cmd { name: "new-session", usage: "apex new-session NAME", short: "make a session", flags: vec![], long: NEW_SESSION },
        Cmd { name: "end-session", usage: "apex end-session [-f] [NAME]", short: "end a session", flags: vec![switch("f", "end it even with unsaved windows")], long: END_SESSION },
        Cmd { name: "rename-session", usage: "apex rename-session [FROM] TO", short: "rename a session", flags: vec![], long: RENAME_SESSION },
        Cmd { name: "attach", usage: "apex attach [-stdio] [[DEST/]SESSION | URL] [FILE...]", short: "open the app on a session, here or on a host", flags: vec![switch("stdio", "bridge the daemon's socket to stdin and stdout (what ssh runs on a host)")], long: ATTACH },
        Cmd { name: "new", usage: "apex new [LABEL]", short: "a new window, with stdin in it", flags: vec![], long: NEW },
        Cmd { name: "open", usage: "apex open FILE...", short: "open files", flags: vec![], long: OPEN },
        Cmd { name: "win", usage: "apex win list | apex win del WIN", short: "list windows, delete one", flags: vec![], long: WIN },
        Cmd { name: "text", usage: "apex text read [-addr=ADDR] WIN", short: "read a window's text", flags: vec![flag("addr", "print only this address (sam syntax: 3,5 or /re/)")], long: TEXT },
        Cmd { name: "edit", usage: "apex edit WIN PROGRAM", short: "run an Edit program on a window", flags: vec![], long: EDIT },
        Cmd { name: "sel", usage: "apex sel WIN [Q0 Q1]", short: "read or set a window's selection", flags: vec![], long: SEL },
        Cmd { name: "exec", usage: "apex exec [WIN] COMMAND", short: "run a command as B2 would", flags: vec![], long: EXEC },
        Cmd { name: "events", usage: "apex events [-shard=S]", short: "stream the session's entries", flags: vec![flag("shard", "only shards whose name starts with S (buffer, window, layout, term, meta)")], long: EVENTS },
        Cmd { name: "ps", usage: "apex ps", short: "the commands the session is running", flags: vec![], long: PS },
        Cmd { name: "kill", usage: "apex kill NAME|PID...", short: "end running commands", flags: vec![], long: KILL },
        Cmd { name: "term", usage: "apex term new [CMD...] | apex term send TERM TEXT | apex term read TERM", short: "terminals", flags: vec![], long: TERM },
        Cmd { name: "web", usage: "apex web open URL | apex web [-name NAME] <HTML", short: "web windows", flags: vec![flag("name", "the window's name (default DIR/+web)")], long: WEB },
        Cmd { name: "plumb", usage: "apex plumb [-dry-run] [-edit] TEXT | apex plumb rule add FLAGS | rm ID | ls", short: "plumb text; the rule table", flags: vec![switch("dry-run", "only say what each rule would do"), switch("edit", "plan 9's B: only rules that open in the session, else TEXT as a path")], long: PLUMB },
        Cmd { name: "B", usage: "apex B FILE[:LINE]...", short: "open files in the session (plan 9's B)", flags: vec![], long: B },
        Cmd { name: "editor", usage: "apex editor FILE", short: "$EDITOR: open FILE, exit when its window is deleted", flags: vec![], long: EDITOR },
        Cmd { name: "env", usage: "apex env [-import] [KEY=VALUE...]", short: "the session's environment", flags: vec![switch("import", "this environment's changes become the session's")], long: ENV },
        Cmd { name: "set", usage: "apex set [KEY VALUE]", short: "a setting", flags: vec![], long: SET },
        Cmd { name: "cat", usage: "apex cat PATH", short: "the bytes of a file on the host", flags: vec![], long: CAT },
        Cmd { name: "io", usage: "apex io [-watch] METHOD URL [<BODY]", short: "a request on the session's I/O plane", flags: vec![switch("watch", "keep the stream open: every change to the file comes again")], long: IO },
        Cmd { name: "preview", usage: "apex preview FILE", short: "show FILE as a page, live", flags: vec![], long: PREVIEW },
        Cmd { name: "md", usage: "apex md <MARKDOWN", short: "Markdown on stdin to HTML on stdout", flags: vec![], long: MD },
        Cmd { name: "tool", usage: "apex tool win [CMD...] | apex tool lsp | apex tool preview FILE", short: "the tools that come with apex", flags: vec![], long: TOOL },
        Cmd { name: "label", usage: "apex label TEXT", short: "title this terminal's window", flags: vec![], long: LABEL },
        Cmd { name: "awd", usage: "apex awd [LABEL]", short: "name this terminal's window after its directory", flags: vec![], long: AWD },
        Cmd { name: "version", usage: "apex version", short: "print the build id", flags: vec![], long: VERSION },
    ]
}

/// The help topics.
pub fn topics() -> (t: Vec<Topic>)
    ensures
        t@.len() == 4,
        is_topic(t@[0], "sessions"@, "sessions, daemons and their URLs"@, ON_SESSIONS@),
        is_topic(t@[1], "scripts"@, "the profile and attach scripts"@, ON_SCRIPTS@),
        is_topic(t@[2], "rules"@, "plumbing rules"@, ON_RULES@),
        is_topic(t@[3], "windows"@, "naming windows"@, ON_WINDOWS@),
{
    vec![
        Topic { name: "sessions", short: "sessions, daemons and their URLs", text: ON_SESSIONS },
        Topic { name: "scripts", short: "the profile and attach scripts", text: ON_SCRIPTS },
        Topic { name: "rules", short: "plumbing rules", text: ON_RULES },
        Topic { name: "windows", short: "naming windows", text: ON_WINDOWS },
    ]
}

} // verus!
