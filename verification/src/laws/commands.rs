//! Laws of the commands that are run, and of the names in archives.
use vstd::prelude::*;
use crate::java::jar::{clean_parts, clean_spec, names_of, path_text};
use crate::java::{
    bin_spec, encoding_spec, find_prefixed, flag_spec, jar_args_spec, javac_args_spec, library_spec, major_spec,
    path_list, run_args_spec, run_jar_args_spec, run_path, separator_spec, test_args_spec, unquoted, version_spec,
};
use crate::laws::texts::{lines_read_back, trimming_takes_one_end};
use crate::laws::ways::is_file_name;
use crate::paths::{join_path_spec, native, parts_among, parts_spec, path_head, Part, PartView};
use crate::project::shell_spec;
use crate::text::{
    begins, decimal_reads_back, decimal_spec, find_char_at, is_digit, join_spec, lines_spec, number_of_decimal,
    split_of_join, split_spec, trim_end_spec, trim_start_spec,
};

verus! {

/// The first line that begins with something counts, without what it begins with.
pub proof fn first_line_counts(lines: Seq<Seq<char>>, prefix: Seq<char>, i: int)
    ensures
        0 <= i < lines.len() && begins(lines[i], prefix) && (forall|l: int|
            0 <= l < i ==> !begins(#[trigger] lines[l], prefix)) ==> find_prefixed(lines, prefix) == Some(
            lines[i].skip(prefix.len() as int),
        ),
        (forall|l: int| 0 <= l < lines.len() ==> !begins(#[trigger] lines[l], prefix)) ==> find_prefixed(lines, prefix)
            is None,
    decreases lines.len(),
{
    if lines.len() > 0 {
        let d = lines.drop_first();
        first_line_counts(d, prefix, i - 1);
        assert(forall|l: int| 0 < l < lines.len() ==> #[trigger] lines[l] == d[l - 1]);
        if 0 < i < lines.len() && begins(lines[i], prefix) && (forall|l: int|
            0 <= l < i ==> !begins(#[trigger] lines[l], prefix)) {
            assert(!begins(lines[0], prefix));
            assert forall|l: int| 0 <= l < i - 1 implies !begins(#[trigger] d[l], prefix) by {
                assert(lines[l + 1] == d[l]);
            }
        }
        if forall|l: int| 0 <= l < lines.len() ==> !begins(#[trigger] lines[l], prefix) {
            assert(!begins(lines[0], prefix));
            assert forall|l: int| 0 <= l < d.len() implies !begins(#[trigger] d[l], prefix) by {
                assert(lines[l + 1] == d[l]);
            }
        }
    }
}

proof fn quotes_are_taken_off(v: Seq<char>)
    requires
        v.len() > 0,
        v[0] != '"',
        v.last() != '"',
    ensures
        unquoted(seq!['"'] + v + seq!['"']) == v,
{
    let q = seq!['"'] + v + seq!['"'];
    let r = v + seq!['"'];
    assert(q.drop_first() =~= r);
    assert(r[0] == v[0]);
    assert(trim_start_spec(q, '"') == trim_start_spec(r, '"'));
    assert(trim_start_spec(r, '"') == r);
    assert(r.drop_last() =~= v);
    assert(trim_end_spec(r, '"') == trim_end_spec(v, '"'));
    assert(trim_end_spec(v, '"') == v);
}

/// The version of an installation is what the first line with its key says, in quotes or not. Its
/// first number is the release.
pub proof fn installation_says_its_version(
    before: Seq<Seq<char>>,
    v: Seq<char>,
    after: Seq<Seq<char>>,
    n: nat,
    rest: Seq<char>,
)
    requires
        forall|i: int|
            0 <= i < before.len() ==> !(#[trigger] before[i]).contains('\n') && !(before[i].len() > 0
                && before[i].last() == '\r') && !begins(before[i], "JAVA_VERSION="@),
        forall|i: int|
            0 <= i < after.len() ==> !(#[trigger] after[i]).contains('\n') && !(after[i].len() > 0 && after[i].last()
                == '\r'),
        !v.contains('\n'),
        v.len() > 0,
        v[0] != '"',
        v.last() != '"',
        n <= u32::MAX,
    ensures
        version_spec(
            join_spec(
                (before + seq!["JAVA_VERSION=\""@ + v + "\""@] + after).push(Seq::empty()),
                "\n"@,
            ),
        ) == Some(v),
        major_spec(decimal_spec(n) + "."@ + rest) == Some(n as u32),
        major_spec(decimal_spec(n)) == Some(n as u32),
{
    reveal_strlit("JAVA_VERSION=");
    reveal_strlit("JAVA_VERSION=\"");
    reveal_strlit("\"");
    reveal_strlit(".");
    let key = "JAVA_VERSION="@;
    let line = "JAVA_VERSION=\""@ + v + "\""@;
    let lines = before + seq![line] + after;
    let k = before.len() as int;
    assert(line =~= key + (seq!['"'] + v + seq!['"']));
    assert(!line.contains('\n')) by {
        if line.contains('\n') {
            let i = choose|i: int| 0 <= i < line.len() && line[i] == '\n';
            if i < 14 {
                assert(line[i] == "JAVA_VERSION=\""@[i]);
            } else if i < 14 + v.len() {
                assert(v[i - 14] == '\n');
            }
        }
    }
    assert(line.last() == '"');
    assert forall|i: int| 0 <= i < lines.len() implies !(#[trigger] lines[i]).contains('\n') && !(lines[i].len() > 0
        && lines[i].last() == '\r') by {
        if i < k {
            assert(lines[i] == before[i]);
        } else if i == k {
            assert(lines[i] == line);
        } else {
            assert(lines[i] == after[i - k - 1]);
        }
    }
    let x = seq!['x'];
    assert(!x.contains('\n'));
    lines_read_back(lines, x);
    assert(lines[k] == line);
    assert(line.take(key.len() as int) =~= key);
    assert(line.skip(key.len() as int) =~= seq!['"'] + v + seq!['"']);
    assert forall|l: int| 0 <= l < k implies !begins(#[trigger] lines[l], key) by {
        assert(lines[l] == before[l]);
    }
    first_line_counts(lines, key, k);
    quotes_are_taken_off(v);
    let d = decimal_spec(n);
    decimal_reads_back(n);
    let t = d + "."@ + rest;
    assert forall|i: int| 0 <= i < d.len() implies d[i] != '.' by {
        assert(is_digit(d[i]));
    }
    assert forall|i: int| 0 <= i < d.len() implies t[i] != '.' by {
        assert(t[i] == d[i]);
    }
    assert(t[d.len() as int] == '.');
    find_char_at(t, '.', 0, d.len() as int);
    assert(t.take(d.len() as int) =~= d);
    find_char_at(d, '.', 0, d.len() as int);
    number_of_decimal(n, u32::MAX as nat);
}

/// A program is told to read and write UTF-8: from the eighteenth release on its streams, too.
pub proof fn programs_speak_utf8(n: u32)
    ensures
        encoding_spec(None) == seq!["-Dfile.encoding=UTF-8"@],
        n < 18 ==> encoding_spec(Some(n)) == seq!["-Dfile.encoding=UTF-8"@],
        n >= 18 ==> encoding_spec(Some(n)) == seq![
            "-Dfile.encoding=UTF-8"@,
            "-Dstdout.encoding=UTF-8"@,
            "-Dstderr.encoding=UTF-8"@,
        ],
{
}

/// Paths are listed as the system writes them, all of them and in order, with its own separator
/// between them. A flag is there only where there is something to say.
pub proof fn all_paths_are_listed(a: Seq<Seq<char>>, b: Seq<Seq<char>>, x: Seq<char>, flag: Seq<char>, windows: bool)
    ensures
        path_list(Seq::empty(), windows) == Seq::<char>::empty(),
        path_list(seq![x], windows) == native(x, windows),
        a.len() > 0 && b.len() > 0 ==> path_list(a + b, windows) == path_list(a, windows) + (if windows {
            ";"@
        } else {
            ":"@
        }) + path_list(b, windows),
        x.len() == 0 ==> flag_spec(flag, x).len() == 0,
        x.len() > 0 ==> flag_spec(flag, x) == seq![flag, x],
        a.len() == 0 ==> library_spec(a, windows).len() == 0,
        a.len() > 0 ==> library_spec(a, windows) == seq!["-Djava.library.path="@ + path_list(a, windows)],
        path_list(a, windows).len() == 0 ==> run_path(x, a, windows) == native(x, windows),
        path_list(a, windows).len() > 0 ==> run_path(x, a, windows) == native(x, windows) + (if windows {
            ";"@
        } else {
            ":"@
        }) + path_list(a, windows),
        bin_spec(x, flag, windows) == native(join_path_spec(join_path_spec(x, "bin"@), flag), windows),
{
    let f = |p: Seq<char>| native(p, windows);
    assert((a + b).map_values(f) =~= a.map_values(f) + b.map_values(f));
    crate::laws::texts::joining_goes_on(a.map_values(f), b.map_values(f), separator_spec(windows), x);
    crate::laws::texts::joining_goes_on(a, b, separator_spec(windows), native(x, windows));
    assert(seq![x].map_values(f) =~= seq![native(x, windows)]);
    assert(Seq::<Seq<char>>::empty().map_values(f) =~= Seq::empty());
}

/// The compiler is told the encoding, where the classes go, the class path and the path of the
/// processors where there is anything on them, and after its other arguments each file.
pub proof fn compiler_is_given_all(
    out: Seq<char>,
    cp: Seq<Seq<char>>,
    pp: Seq<Seq<char>>,
    files: Seq<Seq<char>>,
    extra: Seq<Seq<char>>,
    windows: bool,
)
    ensures
        ({
            let a = javac_args_spec(out, cp, pp, files, extra, windows);
            let n = a.len() - files.len() - extra.len();
            let has_cp = path_list(cp, windows).len() > 0;
            let has_pp = path_list(pp, windows).len() > 0;
            &&& n == 4 + (if has_cp { 2int } else { 0 }) + (if has_pp { 2int } else { 0 })
            &&& a[0] == "-encoding"@ && a[1] == "UTF-8"@
            &&& a[2] == "-d"@ && a[3] == native(out, windows)
            &&& has_cp ==> a[4] == "-cp"@ && a[5] == path_list(cp, windows)
            &&& has_pp ==> a[n - 2] == "-processorpath"@ && a[n - 1] == path_list(pp, windows)
            &&& a.subrange(n, n + extra.len()) == extra
            &&& forall|i: int| 0 <= i < files.len() ==> #[trigger] a[n + extra.len() + i] == native(files[i], windows)
        }),
{
    let a = javac_args_spec(out, cp, pp, files, extra, windows);
    let n = a.len() - files.len() - extra.len();
    assert(a.subrange(n, n + extra.len()) =~= extra);
}

/// A class is run with all of its class path, the directories of native libraries where there are
/// any, and its own arguments after its name; an archive likewise, by its path.
pub proof fn program_is_run_with_its_arguments(
    major: Option<u32>,
    out: Seq<char>,
    cp: Seq<Seq<char>>,
    entry: Seq<char>,
    dirs: Seq<Seq<char>>,
    args: Seq<Seq<char>>,
    windows: bool,
)
    ensures
        ({
            let a = run_args_spec(major, out, cp, entry, dirs, args, windows);
            let n = a.len() - args.len();
            let k = encoding_spec(major).len() as int;
            &&& n == k + (if dirs.len() > 0 { 1int } else { 0 }) + 3
            &&& a.take(k) == encoding_spec(major)
            &&& dirs.len() > 0 ==> a[k] == "-Djava.library.path="@ + path_list(dirs, windows)
            &&& a[n - 3] == "-cp"@ && a[n - 2] == run_path(out, cp, windows) && a[n - 1] == entry
            &&& a.skip(n) == args
        }),
        ({
            let a = run_jar_args_spec(major, out, dirs, args, windows);
            let n = a.len() - args.len();
            let k = encoding_spec(major).len() as int;
            &&& n == k + (if dirs.len() > 0 { 1int } else { 0 }) + 2
            &&& a.take(k) == encoding_spec(major)
            &&& dirs.len() > 0 ==> a[k] == "-Djava.library.path="@ + path_list(dirs, windows)
            &&& a[n - 2] == "-jar"@ && a[n - 1] == native(out, windows)
            &&& a.skip(n) == args
        }),
{
    let a = run_args_spec(major, out, cp, entry, dirs, args, windows);
    let b = run_jar_args_spec(major, out, dirs, args, windows);
    let k = encoding_spec(major).len() as int;
    assert(a.take(k) =~= encoding_spec(major));
    assert(b.take(k) =~= encoding_spec(major));
    assert(a.skip(a.len() - args.len()) =~= args);
    assert(b.skip(b.len() - args.len()) =~= args);
}

/// The console is run with the arguments for the machine before it, and after it the class path
/// where there is one, the directory to look for tests in, and the filters.
pub proof fn console_is_run_with_its_arguments(
    major: Option<u32>,
    console: Seq<char>,
    cp: Seq<Seq<char>>,
    scan: Seq<char>,
    jvm: Seq<Seq<char>>,
    filters: Seq<Seq<char>>,
    windows: bool,
)
    ensures
        ({
            let a = test_args_spec(major, console, cp, scan, jvm, filters, windows);
            let k = encoding_spec(major).len() as int;
            let j = k + jvm.len();
            let n = a.len() - filters.len();
            let has_cp = path_list(cp, windows).len() > 0;
            &&& n == j + 5 + (if has_cp { 2int } else { 0 })
            &&& a.take(k) == encoding_spec(major)
            &&& a.subrange(k, j) == jvm
            &&& a[j] == "-jar"@ && a[j + 1] == native(console, windows) && a[j + 2] == "execute"@
            &&& has_cp ==> a[j + 3] == "--class-path"@ && a[j + 4] == path_list(cp, windows)
            &&& a[n - 2] == "--scan-class-path"@ && a[n - 1] == native(scan, windows)
            &&& a.skip(n) == filters
        }),
{
    let a = test_args_spec(major, console, cp, scan, jvm, filters, windows);
    let k = encoding_spec(major).len() as int;
    let j = k + jvm.len();
    assert(a.take(k) =~= encoding_spec(major));
    assert(a.subrange(k, j) =~= jvm);
    assert(a.skip(a.len() - filters.len()) =~= filters);
}

/// The archiver is given the archive, then the lines for its manifest and the entry class where
/// there are any, in the order of the letters that announce them, and last the directory.
pub proof fn archiver_is_told_what_comes(out: Seq<char>, jar: Seq<char>, entry: Option<Seq<char>>, manifest: Option<Seq<char>>)
    ensures
        ({
            let a = jar_args_spec(out, jar, entry, manifest);
            let k = 2 + (if manifest is Some { 1int } else { 0 });
            let n = k + (if entry is Some { 1int } else { 0 });
            &&& a.len() == n + 3
            &&& a[0] == "cf"@ + (if manifest is Some { "m"@ } else { ""@ }) + (if entry is Some { "e"@ } else { ""@ })
            &&& a[1] == jar
            &&& manifest is Some ==> a[2] == manifest->Some_0
            &&& entry is Some ==> a[k] == entry->Some_0
            &&& a[n] == "-C"@
            &&& a[n + 1] == out
            &&& a[n + 2] == "."@
        }),
{
    reveal_strlit("cf");
    reveal_strlit("cfm");
    reveal_strlit("cfe");
    reveal_strlit("cfme");
    reveal_strlit("m");
    reveal_strlit("e");
    reveal_strlit("");
    assert("cf"@ + ""@ + ""@ =~= "cf"@);
    assert("cf"@ + "m"@ + ""@ =~= "cfm"@);
    assert("cf"@ + ""@ + "e"@ =~= "cfe"@);
    assert("cf"@ + "m"@ + "e"@ =~= "cfme"@);
}

/// A line is run by the shell of the system, as it is, in a directory.
pub proof fn line_is_run_by_the_shell(dir: Seq<char>, line: Seq<char>)
    ensures
        shell_spec(dir, line, false).program == "sh"@,
        shell_spec(dir, line, false).args == seq!["-c"@, line],
        shell_spec(dir, line, false).dir == dir,
        shell_spec(dir, line, true).program == "cmd"@,
        shell_spec(dir, line, true).args == seq!["/C"@, line],
        shell_spec(dir, line, true).dir == native(dir, true),
{
}

proof fn cleaning_goes_on(a: Seq<PartView>, b: Seq<PartView>)
    ensures
        clean_parts(a + b) == clean_parts(clean_parts(a) + b),
    decreases b.len(),
{
    if b.len() == 0 {
        assert(a + b =~= a);
        assert(clean_parts(a) + b =~= clean_parts(a));
        crate::java::jar::clean_is_settled(a);
    } else {
        cleaning_goes_on(a, b.drop_last());
        assert((a + b).drop_last() =~= a + b.drop_last());
        assert((clean_parts(a) + b).drop_last() =~= clean_parts(a) + b.drop_last());
    }
}

/// In the name of an entry a dot counts nothing, two dots take away the name before them, or
/// nothing where there is none, and all names that are left stay, in order.
pub proof fn entry_names_are_cleaned(a: Seq<PartView>, b: Seq<PartView>, n: Seq<char>)
    ensures
        clean_parts(a + seq![Part::Name(n), Part::Up] + b) == clean_parts(a + b),
        clean_parts(a + seq![Part::Here] + b) == clean_parts(a + b),
        clean_parts(seq![Part::Up] + b) == clean_parts(b),
        (forall|i: int| 0 <= i < a.len() ==> (#[trigger] a[i]) is Name) ==> clean_parts(a) == a,
{
    let c = clean_parts(a);
    let m = a + seq![Part::Name(n)];
    let u = a + seq![Part::Name(n), Part::Up];
    assert(m.drop_last() =~= a);
    assert(u.drop_last() =~= m);
    assert(clean_parts(m) == c.push(Part::Name(n)));
    assert(c.push(Part::Name(n)).drop_last() =~= c);
    assert(clean_parts(u) == c);
    cleaning_goes_on(u, b);
    cleaning_goes_on(a, b);
    let h = a + seq![Part::Here];
    assert(h.drop_last() =~= a);
    assert(clean_parts(h) == c);
    cleaning_goes_on(h, b);
    let up = seq![Part::<Seq<char>>::Up];
    assert(up.drop_last() =~= Seq::empty());
    assert(clean_parts(up.drop_last()) == Seq::<PartView>::empty());
    assert(clean_parts(up) == Seq::<PartView>::empty());
    cleaning_goes_on(up, b);
    assert(Seq::<PartView>::empty() + b =~= b);
    if forall|i: int| 0 <= i < a.len() ==> (#[trigger] a[i]) is Name {
        names_stay(a);
    }
}

proof fn names_stay(a: Seq<PartView>)
    requires
        forall|i: int| 0 <= i < a.len() ==> (#[trigger] a[i]) is Name,
    ensures
        clean_parts(a) == a,
    decreases a.len(),
{
    if a.len() > 0 {
        let d = a.drop_last();
        assert forall|i: int| 0 <= i < d.len() implies (#[trigger] d[i]) is Name by {
            assert(d[i] == a[i]);
        }
        names_stay(d);
        assert(a[a.len() - 1] is Name);
        assert(d.push(a.last()) =~= a);
    }
}

/// The names among parts are all of them, in order. As a text they stand with slashes between
/// them, after one for the root.
pub proof fn names_are_written_in_order(p: Seq<PartView>)
    ensures
        names_of(p) == p.filter(|x: PartView| x is Name).map_values(|x: PartView| x->Name_0),
        p.len() > 0 && p[0] is Root ==> path_text(p) == "/"@ + join_spec(names_of(p), "/"@),
        !(p.len() > 0 && p[0] is Root) ==> path_text(p) == join_spec(names_of(p), "/"@),
{
    reveal_strlit("/");
    assert("/"@ =~= seq!['/']);
    names_are_picked(p);
}

proof fn names_are_picked(p: Seq<PartView>)
    ensures
        names_of(p) == p.filter(|x: PartView| x is Name).map_values(|x: PartView| x->Name_0),
    decreases p.len(),
{
    reveal(Seq::filter);
    if p.len() > 0 {
        names_are_picked(p.drop_last());
    }
    assert(names_of(p) =~= p.filter(|x: PartView| x is Name).map_values(|x: PartView| x->Name_0));
}

proof fn plain_pieces_are_names(names: Seq<Seq<char>>)
    requires
        forall|i: int| 0 <= i < names.len() ==> is_file_name(#[trigger] names[i]),
    ensures
        parts_among(names).len() == names.len(),
        forall|i: int| 0 <= i < names.len() ==> #[trigger] parts_among(names)[i] == Part::Name(names[i]),
        names_of(parts_among(names)) == names,
    decreases names.len(),
{
    if names.len() > 0 {
        let d = names.drop_last();
        assert forall|i: int| 0 <= i < d.len() implies is_file_name(#[trigger] d[i]) by {
            assert(d[i] == names[i]);
        }
        plain_pieces_are_names(d);
        let n = names.len() - 1;
        assert(is_file_name(names[n]));
        assert(parts_among(names) == parts_among(d).push(Part::Name(names.last())));
        assert(parts_among(names).drop_last() =~= parts_among(d));
        assert(d.push(names.last()) =~= names);
        assert forall|i: int| 0 <= i < names.len() implies #[trigger] parts_among(names)[i] == Part::Name(
            names[i],
        ) by {
            if i < n {
                assert(parts_among(d)[i] == Part::Name(d[i]));
            }
        }
    } else {
        assert(names =~= Seq::empty());
    }
}

/// A name of an entry that is clean already stays as it is.
pub proof fn clean_entry_name_stays(names: Seq<Seq<char>>)
    requires
        names.len() > 0,
        forall|i: int| 0 <= i < names.len() ==> is_file_name(#[trigger] names[i]),
    ensures
        clean_spec(join_spec(names, "/"@)) == join_spec(names, "/"@),
{
    reveal_strlit("/");
    assert("/"@ =~= seq!['/']);
    let s = join_spec(names, seq!['/']);
    assert forall|i: int| 0 <= i < names.len() implies !(#[trigger] names[i]).contains('/') by {
        assert(is_file_name(names[i]));
    }
    split_of_join(names, '/');
    plain_pieces_are_names(names);
    let p = parts_among(names);
    assert(is_file_name(names[0]));
    assert(names[0].contains(names[0][0]));
    assert(s[0] == names[0][0]) by {
        if names.len() > 1 {
            assert(s == names[0] + seq!['/'] + join_spec(names.drop_first(), seq!['/']));
        }
    }
    assert(path_head(s) == Seq::<PartView>::empty());
    assert(parts_spec(s) =~= p);
    assert forall|i: int| 0 <= i < p.len() implies (#[trigger] p[i]) is Name by {
        assert(p[i] == Part::Name(names[i]));
    }
    names_stay(p);
    assert(p[0] is Name);
}

} // verus!
