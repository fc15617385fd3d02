//! The Java installation, and the commands that are run with it.
use vstd::prelude::*;
use crate::order::OrdSet;
use crate::paths::{join_path, join_path_spec, native, natives, natives_spec, to_native, Path};
use crate::text::{
    add_text, add_texts, join, join_spec, joined, lines_of, lines_spec, number_spec, opt_text,
    parse_number, same, split_all, split_spec, strip_prefix, texts, trim_end, trim_end_spec, trim_start,
    trim_start_spec,
};

pub mod jar;

verus! {

/// The first release that can be told the encoding of its output.
pub const STREAM_ENCODING_MIN_VERSION: u32 = 18;

/// What comes before the version in the file that describes an installation.
pub const VERSION_KEY: &'static str = "JAVA_VERSION=";

/// A command to be run.
#[derive(Debug, PartialEq, Eq)]
pub struct CommandLine {
    pub program: String,
    /// The directory that it is run in.
    pub dir: String,
    pub args: Vec<String>,
}

/// A command, its texts as characters.
pub struct CommandView {
    pub program: Seq<char>,
    pub dir: Seq<char>,
    pub args: Seq<Seq<char>>,
}

impl View for CommandLine {
    type V = CommandView;

    open spec fn view(&self) -> CommandView {
        CommandView { program: self.program@, dir: self.dir@, args: texts(self.args@) }
    }
}

/// What follows a prefix in the first line that begins with it.
pub open spec fn find_prefixed(lines: Seq<Seq<char>>, prefix: Seq<char>) -> Option<Seq<char>>
    decreases lines.len(),
{
    if lines.len() == 0 {
        None
    } else if crate::text::begins(lines[0], prefix) {
        Some(lines[0].skip(prefix.len() as int))
    } else {
        find_prefixed(lines.drop_first(), prefix)
    }
}

/// The text without the quotes around it.
pub open spec fn unquoted(s: Seq<char>) -> Seq<char> {
    trim_end_spec(trim_start_spec(s, '"'), '"')
}

/// The version that the description of an installation gives.
pub open spec fn version_spec(release: Seq<char>) -> Option<Seq<char>> {
    match find_prefixed(lines_spec(release), VERSION_KEY@) {
        Some(v) => Some(unquoted(v)),
        None => None,
    }
}

/// The number that a version begins with.
pub open spec fn major_spec(version: Seq<char>) -> Option<u32> {
    match number_spec(split_spec(version, '.')[0], u32::MAX as nat) {
        Some(n) => Some(n as u32),
        None => None,
    }
}

/// The version that the description of an installation gives.
pub fn read_java_version(release: &str) -> (r: Option<String>)
    ensures
        opt_text(r) == version_spec(release@),
{
    let lines = lines_of(release);
    let ghost ls = texts(lines@);
    let mut i: usize = 0;
    assert(ls.skip(0) =~= ls);
    while i < lines.len()
        invariant
            i <= lines@.len(),
            ls == texts(lines@),
            ls == lines_spec(release@),
            find_prefixed(ls, VERSION_KEY@) == find_prefixed(ls.skip(i as int), VERSION_KEY@),
        decreases lines@.len() - i,
    {
        assert(ls.skip(i as int)[0] == lines@[i as int]@);
        if let Some(v) = strip_prefix(lines[i].as_str(), VERSION_KEY) {
            return Some(trim_end(trim_start(v.as_str(), '"').as_str(), '"'));
        }
        assert(ls.skip(i as int).drop_first() =~= ls.skip(i + 1));
        i = i + 1;
    }
    None
}

/// The number that a version begins with.
pub fn parse_major_version(version: &str) -> (r: Option<u32>)
    ensures
        r == major_spec(version@),
{
    let parts = split_all(version, '.');
    assert(texts(parts@)[0] == parts@[0]@);
    match parse_number(parts[0].as_str(), u32::MAX as u64) {
        Some(n) => Some(n as u32),
        None => None,
    }
}

/// A Java installation.
#[derive(Debug, PartialEq, Eq)]
pub struct Java {
    home: String,
    major_version: Option<u32>,
}

/// The flags that make a program read and write UTF-8.
pub open spec fn encoding_spec(major: Option<u32>) -> Seq<Seq<char>> {
    if major is Some && major->Some_0 >= STREAM_ENCODING_MIN_VERSION {
        seq!["-Dfile.encoding=UTF-8"@, "-Dstdout.encoding=UTF-8"@, "-Dstderr.encoding=UTF-8"@]
    } else {
        seq!["-Dfile.encoding=UTF-8"@]
    }
}

/// What stands between the paths of a list.
pub open spec fn separator_spec(windows: bool) -> Seq<char> {
    if windows {
        ";"@
    } else {
        ":"@
    }
}

/// What stands between the paths of a list.
pub fn separator(windows: bool) -> (r: &'static str)
    ensures
        r@ == separator_spec(windows),
{
    if windows {
        ";"
    } else {
        ":"
    }
}

/// A list of paths, each in the way that the system writes it.
pub open spec fn path_list(paths: Seq<Seq<char>>, windows: bool) -> Seq<char> {
    join_spec(natives_spec(paths, windows), separator_spec(windows))
}

fn list_paths(paths: &Vec<String>, windows: bool) -> (r: String)
    ensures
        r@ == path_list(texts(paths@), windows),
{
    join(&natives(paths, windows), separator(windows))
}

/// The flag that says where native libraries are, where there are any.
pub open spec fn library_spec(dirs: Seq<Seq<char>>, windows: bool) -> Seq<Seq<char>> {
    if dirs.len() == 0 {
        Seq::empty()
    } else {
        seq!["-Djava.library.path="@ + path_list(dirs, windows)]
    }
}

/// A flag and its value, where the value is not empty.
pub open spec fn flag_spec(flag: Seq<char>, value: Seq<char>) -> Seq<Seq<char>> {
    if value.len() == 0 {
        Seq::empty()
    } else {
        seq![flag, value]
    }
}

/// A program of an installation.
pub open spec fn bin_spec(home: Seq<char>, name: Seq<char>, windows: bool) -> Seq<char> {
    native(join_path_spec(join_path_spec(home, "bin"@), name), windows)
}

/// The class path of a program that is run from a directory.
pub open spec fn run_path(out: Seq<char>, class_path: Seq<Seq<char>>, windows: bool) -> Seq<char> {
    if path_list(class_path, windows).len() == 0 {
        native(out, windows)
    } else {
        native(out, windows) + separator_spec(windows) + path_list(class_path, windows)
    }
}

fn add_flag(args: &mut Vec<String>, flag: &str, value: &str)
    ensures
        texts(final(args)@) == texts(old(args)@) + flag_spec(flag@, value@),
{
    let ghost before = texts(args@);
    proof {
        reveal_strlit("");
        if value@.len() == 0 {
            assert(value@ =~= ""@);
        }
    }
    if !same(value, "") {
        add_text(args, flag);
        add_text(args, value);
    }
    assert(texts(args@) =~= before + flag_spec(flag@, value@));
}

/// The paths in a set, as texts.
fn dir_texts(dirs: &OrdSet<Path>) -> (r: Vec<String>)
    ensures
        texts(r@) == dirs@,
{
    let mut out: Vec<String> = Vec::new();
    let mut i: usize = 0;
    while i < dirs.len()
        invariant
            i <= dirs@.len(),
            out@.len() == i,
            forall|k: int| 0 <= k < i ==> (#[trigger] out@[k])@ == dirs@[k],
        decreases dirs@.len() - i,
    {
        out.push(dirs.at(i).text.clone());
        i = i + 1;
    }
    assert(texts(out@) =~= dirs@);
    out
}

fn add_library_path(args: &mut Vec<String>, dirs: &OrdSet<Path>, windows: bool)
    ensures
        texts(final(args)@) == texts(old(args)@) + library_spec(dirs@, windows),
{
    let ghost before = texts(args@);
    if dirs.len() > 0 {
        let list = dir_texts(dirs);
        let flag = joined("-Djava.library.path=", list_paths(&list, windows).as_str());
        add_text(args, flag.as_str());
    }
    assert(texts(args@) =~= before + library_spec(dirs@, windows));
}

/// The letters that tell the archiver what comes: `e` for an entry class, `m` for a file with
/// more lines for the manifest.
pub open spec fn jar_args_spec(
    out: Seq<char>,
    jar_path: Seq<char>,
    entry: Option<Seq<char>>,
    manifest: Option<Seq<char>>,
) -> Seq<Seq<char>> {
    let head = match (manifest, entry) {
        (Some(m), Some(e)) => seq!["cfme"@, jar_path, m, e],
        (Some(m), None) => seq!["cfm"@, jar_path, m],
        (None, Some(e)) => seq!["cfe"@, jar_path, e],
        (None, None) => seq!["cf"@, jar_path],
    };
    head + seq!["-C"@, out, "."@]
}

/// The arguments that the compiler is given.
pub open spec fn javac_args_spec(
    out: Seq<char>,
    class_path: Seq<Seq<char>>,
    processor_path: Seq<Seq<char>>,
    files: Seq<Seq<char>>,
    extra_args: Seq<Seq<char>>,
    windows: bool,
) -> Seq<Seq<char>> {
    seq!["-encoding"@, "UTF-8"@, "-d"@, native(out, windows)] + flag_spec("-cp"@, path_list(class_path, windows))
        + flag_spec("-processorpath"@, path_list(processor_path, windows)) + extra_args + natives_spec(files, windows)
}

/// The arguments that a class is run with.
pub open spec fn run_args_spec(
    major: Option<u32>,
    out: Seq<char>,
    class_path: Seq<Seq<char>>,
    entry: Seq<char>,
    native_dirs: Seq<Seq<char>>,
    args: Seq<Seq<char>>,
    windows: bool,
) -> Seq<Seq<char>> {
    encoding_spec(major) + library_spec(native_dirs, windows) + seq!["-cp"@, run_path(out, class_path, windows), entry]
        + args
}

/// The arguments that an archive is run with.
pub open spec fn run_jar_args_spec(
    major: Option<u32>,
    jar_path: Seq<char>,
    native_dirs: Seq<Seq<char>>,
    args: Seq<Seq<char>>,
    windows: bool,
) -> Seq<Seq<char>> {
    encoding_spec(major) + library_spec(native_dirs, windows) + seq!["-jar"@, native(jar_path, windows)] + args
}

/// The arguments that tests are run with.
pub open spec fn test_args_spec(
    major: Option<u32>,
    console: Seq<char>,
    class_path: Seq<Seq<char>>,
    scan_path: Seq<char>,
    jvm_args: Seq<Seq<char>>,
    filter_args: Seq<Seq<char>>,
    windows: bool,
) -> Seq<Seq<char>> {
    encoding_spec(major) + jvm_args + seq!["-jar"@, native(console, windows), "execute"@] + flag_spec(
        "--class-path"@,
        path_list(class_path, windows),
    ) + seq!["--scan-class-path"@, native(scan_path, windows)] + filter_args
}

impl Java {
    pub closed spec fn home(self) -> Seq<char> {
        self.home@
    }

    pub closed spec fn major(self) -> Option<u32> {
        self.major_version
    }

    /// The installation in a directory, given the file that describes it, where there is one.
    pub fn new(home: String, release: Option<&str>) -> (r: Java)
        ensures
            r.home() == home@,
            r.major() == match release {
                Some(text) => match version_spec(text@) {
                    Some(v) => major_spec(v),
                    None => None,
                },
                None => None,
            },
    {
        let major_version = match release {
            Some(text) => match read_java_version(text) {
                Some(v) => parse_major_version(v.as_str()),
                None => None,
            },
            None => None,
        };
        Java { home, major_version }
    }

    pub fn major_version(&self) -> (r: Option<u32>)
        ensures
            r == self.major(),
    {
        self.major_version
    }

    fn bin(&self, name: &str, windows: bool) -> (r: String)
        ensures
            r@ == bin_spec(self.home(), name@, windows),
    {
        to_native(join_path(join_path(self.home.as_str(), "bin").as_str(), name).as_str(), windows)
    }

    fn encoding_flags(&self) -> (r: Vec<String>)
        ensures
            texts(r@) == encoding_spec(self.major()),
    {
        let mut flags: Vec<String> = Vec::new();
        add_text(&mut flags, "-Dfile.encoding=UTF-8");
        if let Some(v) = self.major_version {
            if v >= STREAM_ENCODING_MIN_VERSION {
                add_text(&mut flags, "-Dstdout.encoding=UTF-8");
                add_text(&mut flags, "-Dstderr.encoding=UTF-8");
            }
        }
        assert(texts(flags@) =~= encoding_spec(self.major()));
        flags
    }

    /// The command that compiles files.
    pub fn javac(
        &self,
        base: &str,
        out: &str,
        class_path: &Vec<String>,
        processor_path: &Vec<String>,
        files: &Vec<String>,
        extra_args: &Vec<String>,
        windows: bool,
    ) -> (r: CommandLine)
        ensures
            r@ == (CommandView {
                program: bin_spec(self.home(), "javac"@, windows),
                dir: native(base@, windows),
                args: javac_args_spec(
                    out@,
                    texts(class_path@),
                    texts(processor_path@),
                    texts(files@),
                    texts(extra_args@),
                    windows,
                ),
            }),
    {
        let mut args: Vec<String> = Vec::new();
        add_text(&mut args, "-encoding");
        add_text(&mut args, "UTF-8");
        add_text(&mut args, "-d");
        add_text(&mut args, to_native(out, windows).as_str());
        assert(texts(args@) =~= seq!["-encoding"@, "UTF-8"@, "-d"@, native(out@, windows)]);
        add_flag(&mut args, "-cp", list_paths(class_path, windows).as_str());
        add_flag(&mut args, "-processorpath", list_paths(processor_path, windows).as_str());
        add_texts(&mut args, extra_args);
        add_texts(&mut args, &natives(files, windows));
        CommandLine { program: self.bin("javac", windows), dir: to_native(base, windows), args }
    }

    /// The command that unpacks an archive.
    pub fn extract_jar(&self, jar: &str, dst: &str, windows: bool) -> (r: CommandLine)
        ensures
            r@ == (CommandView {
                program: bin_spec(self.home(), "jar"@, windows),
                dir: native(dst@, windows),
                args: seq!["xf"@, native(jar@, windows)],
            }),
    {
        let mut args: Vec<String> = Vec::new();
        add_text(&mut args, "xf");
        add_text(&mut args, to_native(jar, windows).as_str());
        assert(texts(args@) =~= seq!["xf"@, native(jar@, windows)]);
        CommandLine { program: self.bin("jar", windows), dir: to_native(dst, windows), args }
    }

    /// The command that packs a directory.
    pub fn jar(
        &self,
        base: &str,
        out: &str,
        jar_path: &str,
        entry: Option<&str>,
        manifest: Option<&str>,
        windows: bool,
    ) -> (r: CommandLine)
        ensures
            r@ == (CommandView {
                program: bin_spec(self.home(), "jar"@, windows),
                dir: native(base@, windows),
                args: jar_args_spec(
                    native(out@, windows),
                    native(jar_path@, windows),
                    match entry {
                        Some(e) => Some(e@),
                        None => None,
                    },
                    match manifest {
                        Some(m) => Some(native(m@, windows)),
                        None => None,
                    },
                ),
            }),
    {
        let out = to_native(out, windows);
        let jar_path = to_native(jar_path, windows);
        let mut args: Vec<String> = Vec::new();
        match (manifest, entry) {
            (Some(m), Some(e)) => {
                add_text(&mut args, "cfme");
                add_text(&mut args, jar_path.as_str());
                add_text(&mut args, to_native(m, windows).as_str());
                add_text(&mut args, e);
            },
            (Some(m), None) => {
                add_text(&mut args, "cfm");
                add_text(&mut args, jar_path.as_str());
                add_text(&mut args, to_native(m, windows).as_str());
            },
            (None, Some(e)) => {
                add_text(&mut args, "cfe");
                add_text(&mut args, jar_path.as_str());
                add_text(&mut args, e);
            },
            (None, None) => {
                add_text(&mut args, "cf");
                add_text(&mut args, jar_path.as_str());
            },
        }
        add_text(&mut args, "-C");
        add_text(&mut args, out.as_str());
        add_text(&mut args, ".");
        proof {
            let ev = match entry {
                Some(e) => Some(e@),
                None => None,
            };
            let mv = match manifest {
                Some(m) => Some(native(m@, windows)),
                None => None,
            };
            assert(texts(args@) =~= jar_args_spec(out@, jar_path@, ev, mv));
        }
        CommandLine { program: self.bin("jar", windows), dir: to_native(base, windows), args }
    }

    /// The command that runs a class.
    pub fn run(
        &self,
        base: &str,
        out: &str,
        class_path: &Vec<String>,
        entry: &str,
        native_dirs: &OrdSet<Path>,
        args: &Vec<String>,
        windows: bool,
    ) -> (r: CommandLine)
        ensures
            r@ == (CommandView {
                program: bin_spec(self.home(), "java"@, windows),
                dir: native(base@, windows),
                args: run_args_spec(
                    self.major(),
                    out@,
                    texts(class_path@),
                    entry@,
                    native_dirs@,
                    texts(args@),
                    windows,
                ),
            }),
    {
        let mut list = self.encoding_flags();
        add_library_path(&mut list, native_dirs, windows);
        let ghost before = texts(list@);
        let cp = list_paths(class_path, windows);
        proof {
            reveal_strlit("");
            if cp@.len() == 0 {
                assert(cp@ =~= ""@);
            }
        }
        let mut path = to_native(out, windows);
        if !same(cp.as_str(), "") {
            crate::text::push_text(&mut path, separator(windows));
            crate::text::push_text(&mut path, cp.as_str());
        }
        add_text(&mut list, "-cp");
        add_text(&mut list, path.as_str());
        add_text(&mut list, entry);
        assert(texts(list@) =~= before + seq!["-cp"@, run_path(out@, texts(class_path@), windows), entry@]);
        add_texts(&mut list, args);
        CommandLine { program: self.bin("java", windows), dir: to_native(base, windows), args: list }
    }

    /// The command that runs tests.
    pub fn run_tests(
        &self,
        base: &str,
        standalone_jar: &str,
        class_path: &Vec<String>,
        scan_path: &str,
        jvm_args: &Vec<String>,
        filter_args: &Vec<String>,
        windows: bool,
    ) -> (r: CommandLine)
        ensures
            r@ == (CommandView {
                program: bin_spec(self.home(), "java"@, windows),
                dir: native(base@, windows),
                args: test_args_spec(
                    self.major(),
                    standalone_jar@,
                    texts(class_path@),
                    scan_path@,
                    texts(jvm_args@),
                    texts(filter_args@),
                    windows,
                ),
            }),
    {
        let mut list = self.encoding_flags();
        add_texts(&mut list, jvm_args);
        let ghost a = texts(list@);
        add_text(&mut list, "-jar");
        add_text(&mut list, to_native(standalone_jar, windows).as_str());
        add_text(&mut list, "execute");
        assert(texts(list@) =~= a + seq!["-jar"@, native(standalone_jar@, windows), "execute"@]);
        add_flag(&mut list, "--class-path", list_paths(class_path, windows).as_str());
        let ghost b = texts(list@);
        add_text(&mut list, "--scan-class-path");
        add_text(&mut list, to_native(scan_path, windows).as_str());
        assert(texts(list@) =~= b + seq!["--scan-class-path"@, native(scan_path@, windows)]);
        add_texts(&mut list, filter_args);
        CommandLine { program: self.bin("java", windows), dir: to_native(base, windows), args: list }
    }

    /// The command that runs an archive.
    pub fn run_jar(&self, base: &str, jar_path: &str, native_dirs: &OrdSet<Path>, args: &Vec<String>, windows: bool) -> (r:
        CommandLine)
        ensures
            r@ == (CommandView {
                program: bin_spec(self.home(), "java"@, windows),
                dir: native(base@, windows),
                args: run_jar_args_spec(self.major(), jar_path@, native_dirs@, texts(args@), windows),
            }),
    {
        let mut list = self.encoding_flags();
        add_library_path(&mut list, native_dirs, windows);
        let ghost a = texts(list@);
        add_text(&mut list, "-jar");
        add_text(&mut list, to_native(jar_path, windows).as_str());
        assert(texts(list@) =~= a + seq!["-jar"@, native(jar_path@, windows)]);
        add_texts(&mut list, args);
        CommandLine { program: self.bin("java", windows), dir: to_native(base, windows), args: list }
    }
}

} // verus!
