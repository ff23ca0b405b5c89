//! The commands that start the service: from the checkout's sources, or from
//! the resources that a release bundle embeds.

use crate::service::ServiceError;
use crate::text;
use vstd::prelude::*;
use vstd::string::*;

verus! {

/// Fixed port of the desktop edition. A stable origin keeps what the window
/// stores across launches; a random port would make a fresh origin at every
/// start.
pub const DESKTOP_PORT: &'static str = "31080";

/// Why there is no command when the manifest directory lies too high.
pub const NO_REPO_ROOT: &'static str = "CARGO_MANIFEST_DIR has no repo root above it";

/// A command line, with the directory to run it in.
#[derive(Debug, PartialEq, Eq)]
pub struct ServiceCommand {
    pub program: String,
    pub args: Vec<String>,
    pub current_dir: String,
}

/// A [`ServiceCommand`] with its texts as sequences of characters.
#[verifier::ext_equal]
pub struct CommandLine {
    pub program: Seq<char>,
    pub args: Seq<Seq<char>>,
    pub current_dir: Seq<char>,
}

impl View for ServiceCommand {
    type V = CommandLine;

    open spec fn view(&self) -> CommandLine {
        CommandLine {
            program: self.program@,
            args: self.args@.map_values(|arg: String| arg@),
            current_dir: self.current_dir@,
        }
    }
}

/// `base` extended by `part`, as Unix paths: an absolute `part` stands alone,
/// any other is set behind `base` and a slash, where `base` needs one.
pub open spec fn joined(base: Seq<char>, part: Seq<char>) -> Seq<char> {
    if part.len() > 0 && part[0] == '/' {
        part
    } else if base.len() == 0 || base.last() == '/' {
        base + part
    } else {
        base + seq!['/'] + part
    }
}

/// `base` extended by `part`, as Unix paths.
pub fn join_path(base: &str, part: &str) -> (path: String)
    ensures
        path@ == joined(base@, part@),
{
    let part_chars = text::chars_of(part);
    if part_chars.len() > 0 && part_chars[0] == '/' {
        return part.to_owned();
    }
    let base_chars = text::chars_of(base);
    let mut path = base.to_owned();
    if base_chars.len() > 0 && base_chars[base_chars.len() - 1] != '/' {
        proof {
            reveal_strlit("/");
        }
        path.append("/");
        assert(path@ =~= base@ + seq!['/']);
    }
    path.append(part);
    path
}

/// What `std::path::Path::parent` returns for a path, on Unix.
pub uninterp spec fn parent_of(path: Seq<char>) -> Option<Seq<char>>;

/// Whether `name` is an ordinary file name: not empty, not the current
/// directory, and without a slash.
pub open spec fn is_file_name(name: Seq<char>) -> bool {
    &&& name.len() > 0
    &&& name != seq!['.']
    &&& !name.contains('/')
}

/// Whether `path` is a directory's path with nothing redundant at its end: not
/// empty, and with neither a slash nor the current directory as its end.
pub open spec fn is_plain_dir(path: Seq<char>) -> bool {
    &&& path.len() > 0
    &&& path.last() != '/'
    &&& !seq!['/', '.'].is_suffix_of(path)
}

/// Whether `path` is the empty path or the root.
pub open spec fn is_top_dir(path: Seq<char>) -> bool {
    path.len() == 0 || path == seq!['/']
}

/// Whether `path` is the path of a directory that another path can be set
/// behind: a plain one, the root, or the empty path.
pub open spec fn is_base_dir(path: Seq<char>) -> bool {
    is_top_dir(path) || is_plain_dir(path)
}

/// `std::path::Path::parent`, on Unix. Its documentation says that it returns
/// the path without its final component, and `None` if the path ends in a
/// root or is empty; a relative path with one component has the empty path as
/// parent. So a directory's path, a slash and a file name have the directory
/// as parent, and a file name under the root has the root. What it makes of
/// other paths (trailing slashes, dots) is not said.
#[verifier::external_body]
fn parent_path(path: &str) -> (parent: Option<String>)
    ensures
        text::opt_text(parent) == parent_of(path@),
        path@.len() == 0 ==> parent is None,
        path@ == seq!['/'] ==> parent is None,
        is_file_name(path@) ==> text::opt_text(parent) == Some(Seq::<char>::empty()),
        forall|name: Seq<char>|
            path@ == #[trigger] (seq!['/'] + name) && is_file_name(name) ==> text::opt_text(parent)
                == Some(seq!['/']),
        forall|dir: Seq<char>, name: Seq<char>|
            path@ == #[trigger] (dir + seq!['/'] + name) && is_plain_dir(dir) && is_file_name(name)
                ==> text::opt_text(parent) == Some(dir),
{
    match std::path::Path::new(path).parent() {
        Some(parent) => Some(parent.to_string_lossy().into_owned()),
        None => None,
    }
}

/// The directory three levels above `manifest_dir`, if there is one.
pub open spec fn repo_root(manifest_dir: Seq<char>) -> Option<Seq<char>> {
    match parent_of(manifest_dir) {
        Some(above) => match parent_of(above) {
            Some(above) => parent_of(above),
            None => None,
        },
        None => None,
    }
}

/// The command that runs the service from the sources of the checkout at
/// `repo`.
pub open spec fn dev_command_line(repo: Seq<char>) -> CommandLine {
    CommandLine {
        program: "node"@,
        args: seq![
            "--import"@,
            "tsx/esm"@,
            "apps/cli/src/bin.ts"@,
            "web"@,
            "--port"@,
            DESKTOP_PORT@,
            "--no-open"@,
        ],
        current_dir: repo,
    }
}

/// The command that runs the service that a release bundle embeds under
/// `resource_dir`.
pub open spec fn bundled_command_line(resource_dir: Seq<char>) -> CommandLine {
    let runtime = joined(resource_dir, "runtime"@);
    let service = joined(resource_dir, "dsh"@);
    CommandLine {
        program: joined(joined(runtime, "bin"@), "node"@),
        args: seq![
            joined(joined(service, "lib"@), "bin.js"@),
            "web"@,
            "--port"@,
            DESKTOP_PORT@,
            "--no-open"@,
        ],
        current_dir: service,
    }
}

/// The command that runs the service from the sources of the checkout at
/// `repo`; without a checkout, the reason why there is none.
pub fn dev_command_at(repo: Option<String>) -> (result: Result<ServiceCommand, ServiceError>)
    ensures
        match repo {
            Some(dir) => result matches Ok(command) && command@ == dev_command_line(dir@)
                && command.current_dir@ == dir@,
            None => result matches Err(ServiceError::Spawn(reason)) && reason@ == NO_REPO_ROOT@,
        },
{
    match repo {
        Some(dir) => {
            let mut args: Vec<String> = Vec::new();
            args.push("--import".to_owned());
            args.push("tsx/esm".to_owned());
            args.push("apps/cli/src/bin.ts".to_owned());
            args.push("web".to_owned());
            args.push("--port".to_owned());
            args.push(DESKTOP_PORT.to_owned());
            // The shell renders its own window: the service must not open the
            // default browser.
            args.push("--no-open".to_owned());
            let command = ServiceCommand { program: "node".to_owned(), args, current_dir: dir };
            assert(command@ =~= dev_command_line(command.current_dir@));
            Ok(command)
        },
        None => Err(ServiceError::Spawn(NO_REPO_ROOT.to_owned())),
    }
}

/// Whether `result` is the command for the checkout at `repo`.
pub open spec fn runs_at(result: Result<ServiceCommand, ServiceError>, repo: Seq<char>) -> bool {
    result matches Ok(command) && command@ == dev_command_line(repo)
}

/// Whether `result` says that there is no repository root.
pub open spec fn has_no_root(result: Result<ServiceCommand, ServiceError>) -> bool {
    result matches Err(ServiceError::Spawn(reason)) && reason@ == NO_REPO_ROOT@
}

/// The path of `c` in `b` in `a` in `dir`.
pub open spec fn three_below(
    dir: Seq<char>,
    a: Seq<char>,
    b: Seq<char>,
    c: Seq<char>,
) -> Seq<char> {
    joined(joined(joined(dir, a), b), c)
}

/// Whether `path` lies too high to have three levels above it: it is the empty
/// path or the root, or one or two file names below one of these.
pub open spec fn lies_too_high(path: Seq<char>) -> bool {
    ||| is_top_dir(path)
    ||| exists|top: Seq<char>, a: Seq<char>|
        is_top_dir(top) && is_file_name(a) && path == #[trigger] joined(top, a)
    ||| exists|top: Seq<char>, a: Seq<char>, b: Seq<char>|
        is_top_dir(top) && is_file_name(a) && is_file_name(b) && path == #[trigger] joined(
            joined(top, a),
            b,
        )
}

/// The command that runs the service from the checkout's sources.
/// `manifest_dir` is the directory of the shell's manifest: the repository's
/// root is three levels up.
pub fn dev_service_command(manifest_dir: &str) -> (result: Result<ServiceCommand, ServiceError>)
    ensures
        match repo_root(manifest_dir@) {
            Some(repo) => runs_at(result, repo),
            None => has_no_root(result),
        },
        forall|repo: Seq<char>, a: Seq<char>, b: Seq<char>, c: Seq<char>|
            is_base_dir(repo) && is_file_name(a) && is_file_name(b) && is_file_name(c)
                && manifest_dir@ == #[trigger] three_below(repo, a, b, c) ==> runs_at(result, repo),
        forall|repo: Seq<char>|
            is_base_dir(repo) && manifest_dir@ == #[trigger] joined(repo, "apps/desktop/src-tauri"@)
                ==> runs_at(result, repo),
        lies_too_high(manifest_dir@) ==> has_no_root(result),
{
    let desktop = parent_path(manifest_dir);
    let apps = match &desktop {
        Some(dir) => parent_path(dir.as_str()),
        None => None,
    };
    let repo = match &apps {
        Some(dir) => parent_path(dir.as_str()),
        None => None,
    };
    proof {
        assert forall|root: Seq<char>, a: Seq<char>, b: Seq<char>, c: Seq<char>|
            is_base_dir(root) && is_file_name(a) && is_file_name(b) && is_file_name(c)
                && manifest_dir@ == #[trigger] three_below(root, a, b, c) implies text::opt_text(
            repo,
        ) == Some(root) by {
            let first = joined(root, a);
            let second = joined(first, b);
            lemma_below(root, a);
            lemma_below(first, b);
            lemma_below(second, c);
            assert(text::opt_text(desktop) == Some(second));
            assert(text::opt_text(apps) == Some(first));
        }
        assert forall|root: Seq<char>|
            is_base_dir(root) && manifest_dir@ == #[trigger] joined(
                root,
                "apps/desktop/src-tauri"@,
            ) implies text::opt_text(repo) == Some(root) by {
            lemma_manifest_dir_levels(root);
            assert(manifest_dir@ == three_below(root, "apps"@, "desktop"@, "src-tauri"@));
        }
        if lies_too_high(manifest_dir@) && !is_top_dir(manifest_dir@) {
            if exists|top: Seq<char>, a: Seq<char>|
                is_top_dir(top) && is_file_name(a) && manifest_dir@ == #[trigger] joined(top, a) {
                let (top, a) = choose|top: Seq<char>, a: Seq<char>|
                    is_top_dir(top) && is_file_name(a) && manifest_dir@ == #[trigger] joined(top, a);
                lemma_below(top, a);
                assert(text::opt_text(desktop) == Some(top));
            } else {
                let (top, a, b) = choose|top: Seq<char>, a: Seq<char>, b: Seq<char>|
                    is_top_dir(top) && is_file_name(a) && is_file_name(b) && manifest_dir@
                        == #[trigger] joined(joined(top, a), b);
                lemma_below(top, a);
                lemma_below(joined(top, a), b);
                assert(text::opt_text(desktop) == Some(joined(top, a)));
                assert(text::opt_text(apps) == Some(top));
            }
        }
    }
    dev_command_at(repo)
}

/// What a file name makes of the path of a directory when it is set behind it:
/// the path of a plain directory, in the shape that its parent is known of.
proof fn lemma_below(dir: Seq<char>, name: Seq<char>)
    requires
        is_base_dir(dir),
        is_file_name(name),
    ensures
        is_plain_dir(joined(dir, name)),
        dir.len() == 0 ==> joined(dir, name) == name,
        dir == seq!['/'] ==> joined(dir, name) == seq!['/'] + name,
        is_plain_dir(dir) ==> joined(dir, name) == dir + seq!['/'] + name,
{
    let path = joined(dir, name);
    assert(!name.contains('/'));
    assert(name[0] != '/');
    assert(name.last() != '/');
    if dir.len() == 0 {
        assert(path =~= name);
    }
    assert(path.last() == name.last());
    let dot = seq!['/', '.'];
    if dot.is_suffix_of(path) {
        assert(dot[0] == path[path.len() - 2] && dot[1] == path[path.len() - 1]);
        if name.len() == 1 {
            assert(name =~= seq!['.']);
        } else {
            assert(path[path.len() - 2] == name[name.len() - 2]);
        }
    }
}

/// The levels of the manifest directory, from the repository's root down.
proof fn lemma_manifest_dir_levels(repo: Seq<char>)
    requires
        is_base_dir(repo),
    ensures
        joined(repo, "apps/desktop/src-tauri"@) == three_below(
            repo,
            "apps"@,
            "desktop"@,
            "src-tauri"@,
        ),
        is_file_name("apps"@),
        is_file_name("desktop"@),
        is_file_name("src-tauri"@),
{
    reveal_strlit("apps");
    reveal_strlit("desktop");
    reveal_strlit("src-tauri");
    reveal_strlit("apps/desktop/src-tauri");
    let apps = joined(repo, "apps"@);
    let desktop = joined(apps, "desktop"@);
    lemma_below(repo, "apps"@);
    lemma_below(apps, "desktop"@);
    assert(joined(repo, "apps/desktop/src-tauri"@) =~= desktop + seq!['/'] + "src-tauri"@);
}

/// The command that runs the service that a release bundle embeds: a portable
/// runtime and the built command line tool, under `resource_dir`.
pub fn bundled_service_command(resource_dir: &str) -> (result: Result<ServiceCommand, ServiceError>)
    ensures
        result matches Ok(command) && command@ == bundled_command_line(resource_dir@),
{
    let runtime = join_path(resource_dir, "runtime");
    let bin = join_path(runtime.as_str(), "bin");
    let program = join_path(bin.as_str(), "node");
    let service = join_path(resource_dir, "dsh");
    let lib = join_path(service.as_str(), "lib");
    let entry = join_path(lib.as_str(), "bin.js");
    let mut args: Vec<String> = Vec::new();
    args.push(entry);
    args.push("web".to_owned());
    args.push("--port".to_owned());
    args.push(DESKTOP_PORT.to_owned());
    // The shell renders its own window: the service must not open the default
    // browser.
    args.push("--no-open".to_owned());
    let command = ServiceCommand { program, args, current_dir: service };
    assert(command@ =~= bundled_command_line(resource_dir@));
    Ok(command)
}

/// Where the service comes from.
#[derive(Debug, PartialEq, Eq)]
pub enum LaunchMode {
    /// From the checkout's sources; `manifest_dir` is the shell's manifest
    /// directory.
    Dev { manifest_dir: String },
    /// From the resources of a release bundle.
    Bundled { resource_dir: String },
}

/// The command that starts the service in the given mode.
pub fn launch_service(mode: &LaunchMode) -> (result: Result<ServiceCommand, ServiceError>)
    ensures
        match mode {
            LaunchMode::Dev { manifest_dir } => match repo_root(manifest_dir@) {
                Some(repo) => runs_at(result, repo),
                None => has_no_root(result),
            },
            LaunchMode::Bundled { resource_dir } => result matches Ok(command) && command@
                == bundled_command_line(resource_dir@),
        },
        mode matches LaunchMode::Dev { manifest_dir } ==> {
            &&& forall|repo: Seq<char>, a: Seq<char>, b: Seq<char>, c: Seq<char>|
                is_base_dir(repo) && is_file_name(a) && is_file_name(b) && is_file_name(c)
                    && manifest_dir@ == #[trigger] three_below(repo, a, b, c) ==> runs_at(
                    result,
                    repo,
                )
            &&& forall|repo: Seq<char>|
                is_base_dir(repo) && manifest_dir@ == #[trigger] joined(
                    repo,
                    "apps/desktop/src-tauri"@,
                ) ==> runs_at(result, repo)
            &&& lies_too_high(manifest_dir@) ==> has_no_root(result)
        },
{
    match mode {
        LaunchMode::Dev { manifest_dir } => dev_service_command(manifest_dir.as_str()),
        LaunchMode::Bundled { resource_dir } => bundled_service_command(resource_dir.as_str()),
    }
}

/// Whether `arg` is the argument at position `at` of `command`, and at no
/// other.
pub open spec fn only_at(command: CommandLine, arg: Seq<char>, at: int) -> bool {
    &&& 0 <= at < command.args.len()
    &&& forall|i: int|
        0 <= i < command.args.len() ==> (#[trigger] command.args[i] == arg <==> i == at)
}

/// Whether `command` hands the service `port`, and no other port.
pub open spec fn asks_for_port(command: CommandLine, port: Seq<char>) -> bool {
    exists|at: int|
        #[trigger] only_at(command, "--port"@, at) && at + 1 < command.args.len()
            && command.args[at + 1] == port
}

/// In both modes the service gets the one fixed port, which keeps the window's
/// origin the same across launches and modes, and is told once to leave the
/// default browser alone.
pub proof fn every_launch_uses_the_desktop_port(repo: Seq<char>, resource_dir: Seq<char>)
    ensures
        asks_for_port(dev_command_line(repo), DESKTOP_PORT@),
        asks_for_port(bundled_command_line(resource_dir), DESKTOP_PORT@),
        exists|at: int| only_at(dev_command_line(repo), "--no-open"@, at),
        exists|at: int| only_at(bundled_command_line(resource_dir), "--no-open"@, at),
{
    reveal_strlit("--import");
    reveal_strlit("tsx/esm");
    reveal_strlit("apps/cli/src/bin.ts");
    reveal_strlit("web");
    reveal_strlit("--port");
    reveal_strlit("31080");
    reveal_strlit("--no-open");
    reveal_strlit("bin.js");
    let dev = dev_command_line(repo);
    assert("--import"@[2] == 'i' && "--port"@[2] == 'p' && "--no-open"@[2] == 'n');
    assert("tsx/esm"@[0] == 't' && "apps/cli/src/bin.ts"@[0] == 'a' && "web"@[0] == 'w');
    assert("31080"@[0] == '3' && "--port"@[0] == '-' && "--no-open"@[0] == '-');
    assert(only_at(dev, "--port"@, 4));
    assert(only_at(dev, "--no-open"@, 6));
    let bundled = bundled_command_line(resource_dir);
    assert(bundled.args[0].last() == 's');
    assert("--port"@.last() == 't' && "--no-open"@.last() == 'n');
    assert(only_at(bundled, "--port"@, 2));
    assert(only_at(bundled, "--no-open"@, 4));
}

/// A bundle's layout: under a resource directory, the runtime is
/// `runtime/bin/node`, and it runs `dsh/lib/bin.js` in `dsh`.
pub proof fn bundle_layout(resource_dir: Seq<char>)
    requires
        resource_dir.len() > 0,
        resource_dir.last() != '/',
    ensures
        bundled_command_line(resource_dir).program == resource_dir + "/runtime/bin/node"@,
        bundled_command_line(resource_dir).args[0] == resource_dir + "/dsh/lib/bin.js"@,
        bundled_command_line(resource_dir).current_dir == resource_dir + "/dsh"@,
{
    reveal_strlit("runtime");
    reveal_strlit("bin");
    reveal_strlit("node");
    reveal_strlit("dsh");
    reveal_strlit("lib");
    reveal_strlit("bin.js");
    reveal_strlit("/runtime/bin/node");
    reveal_strlit("/dsh/lib/bin.js");
    reveal_strlit("/dsh");
    let runtime = joined(resource_dir, "runtime"@);
    assert(runtime == resource_dir + seq!['/'] + "runtime"@);
    assert(runtime.last() == 'e');
    let bin = joined(runtime, "bin"@);
    assert(bin.last() == 'n');
    assert(joined(bin, "node"@) =~= resource_dir + "/runtime/bin/node"@);
    let service = joined(resource_dir, "dsh"@);
    assert(service =~= resource_dir + "/dsh"@);
    assert(service.last() == 'h');
    let lib = joined(service, "lib"@);
    assert(lib.last() == 'b');
    assert(joined(lib, "bin.js"@) =~= resource_dir + "/dsh/lib/bin.js"@);
}

/// A part is set behind a path with exactly one slash between them; behind no
/// path at all it stands by itself; and an absolute part takes the place of
/// the path.
pub proof fn one_slash_joins_two_paths(base: Seq<char>, part: Seq<char>)
    ensures
        joined(Seq::empty(), part) == part,
        joined(base, seq!['/'] + part) == seq!['/'] + part,
        part.len() > 0 && part[0] != '/' ==> joined(base + seq!['/'], part) == base + seq!['/']
            + part,
        base.len() > 0 && base.last() != '/' && (part.len() == 0 || part[0] != '/') ==> joined(
            base,
            part,
        ) == base + seq!['/'] + part,
{
    assert(Seq::<char>::empty() + part =~= part);
}

/// From the checkout's sources the service is run in the checkout itself,
/// wherever that lies: `node --import tsx/esm apps/cli/src/bin.ts web --port
/// 31080 --no-open`.
pub proof fn dev_layout(repo: Seq<char>)
    ensures
        dev_command_line(repo).program == "node"@,
        dev_command_line(repo).args == seq![
            "--import"@,
            "tsx/esm"@,
            "apps/cli/src/bin.ts"@,
            "web"@,
            "--port"@,
            "31080"@,
            "--no-open"@,
        ],
        dev_command_line(repo).current_dir == repo,
{
}

/// The command line is the same for every checkout, but for the directory that
/// it is run in: two checkouts differ in nothing else.
pub proof fn checkouts_differ_in_their_directory_alone(repo: Seq<char>, other: Seq<char>)
    ensures
        dev_command_line(repo).program == dev_command_line(other).program,
        dev_command_line(repo).args == dev_command_line(other).args,
        dev_command_line(repo) == dev_command_line(other) <==> repo == other,
{
}

/// A bundled service is asked for what one from the sources is: its own entry,
/// `web`, the desktop port, and no browser.
pub proof fn a_bundle_is_asked_for_the_same(resource_dir: Seq<char>, repo: Seq<char>)
    ensures
        bundled_command_line(resource_dir).args.len() == 5,
        bundled_command_line(resource_dir).args.skip(1) == seq![
            "web"@,
            "--port"@,
            "31080"@,
            "--no-open"@,
        ],
        bundled_command_line(resource_dir).args.skip(1) == dev_command_line(repo).args.skip(3),
{
    assert(bundled_command_line(resource_dir).args.skip(1) =~= dev_command_line(repo).args.skip(3));
}

/// [`bundle_layout`] for a resource directory that is the empty path, or that
/// is written with a slash at its end.
pub proof fn bundle_layout_behind_a_slash(resource_dir: Seq<char>)
    requires
        resource_dir.len() == 0 || resource_dir.last() == '/',
    ensures
        bundled_command_line(resource_dir).program == resource_dir + "runtime/bin/node"@,
        bundled_command_line(resource_dir).args[0] == resource_dir + "dsh/lib/bin.js"@,
        bundled_command_line(resource_dir).current_dir == resource_dir + "dsh"@,
{
    reveal_strlit("runtime");
    reveal_strlit("bin");
    reveal_strlit("node");
    reveal_strlit("dsh");
    reveal_strlit("lib");
    reveal_strlit("bin.js");
    reveal_strlit("runtime/bin/node");
    reveal_strlit("dsh/lib/bin.js");
    let runtime = joined(resource_dir, "runtime"@);
    assert(runtime.last() == 'e');
    let bin = joined(runtime, "bin"@);
    assert(bin.last() == 'n');
    assert(joined(bin, "node"@) =~= resource_dir + "runtime/bin/node"@);
    let service = joined(resource_dir, "dsh"@);
    assert(service.last() == 'h');
    let lib = joined(service, "lib"@);
    assert(lib.last() == 'b');
    assert(joined(lib, "bin.js"@) =~= resource_dir + "dsh/lib/bin.js"@);
}

/// The repository's root is the parent of the parent of the manifest
/// directory's parent: there is one exactly when all three are.
pub proof fn the_root_is_three_parents_up(manifest_dir: Seq<char>, repo: Seq<char>)
    ensures
        repo_root(manifest_dir) == Some(repo) <==> exists|desktop: Seq<char>, apps: Seq<char>|
            #![trigger parent_of(desktop), parent_of(apps)]
            parent_of(manifest_dir) == Some(desktop) && parent_of(desktop) == Some(apps)
                && parent_of(apps) == Some(repo),
{
    if repo_root(manifest_dir) == Some(repo) {
        let desktop = parent_of(manifest_dir)->0;
        let apps = parent_of(desktop)->0;
        assert(parent_of(apps) == Some(repo));
    }
}

/// A command line is made of the texts of its command, one for one.
pub proof fn a_command_line_is_its_texts(command: ServiceCommand)
    ensures
        command@.program == command.program@,
        command@.current_dir == command.current_dir@,
        command@.args.len() == command.args@.len(),
        forall|i: int|
            0 <= i < command.args@.len() ==> #[trigger] command@.args[i] == command.args@[i]@,
{
}

/// A manifest directory that lies too high is reported by the name of the
/// variable that it comes from, and is no command.
pub proof fn a_missing_root_is_a_spawn_failure(result: Result<ServiceCommand, ServiceError>)
    ensures
        has_no_root(result) <==> (result matches Err(ServiceError::Spawn(reason)) && reason@
            == "CARGO_MANIFEST_DIR has no repo root above it"@),
        has_no_root(result) ==> forall|repo: Seq<char>| !runs_at(result, repo),
{
}

} // verus!
