use borneo::maven::assembly::{take_import, Assembly};
use borneo::maven::loader::{extract_pom_deps, PomFault};
use borneo::maven::pom::{Dependency, DependencyScope, Parent, Pom};
use borneo::maven::template::{
    apply_templates, java_system_properties, replace, resolve_template_references, Props, SystemInfo,
};
use borneo::maven::xml::{NoRoot, XmlEvent, XmlFile, XmlNode};
use borneo::manifest::PomScope;
use borneo::order::OrdSet;
use borneo::types::PatternError;

fn file(s: &str) -> XmlFile {
    XmlFile::from_str(s).unwrap()
}

fn text<'a>(f: &'a XmlFile, path: &str) -> Option<&'a str> {
    match f.root().get(path) {
        Some(XmlNode::Text(t)) => Some(t.as_str()),
        _ => None,
    }
}

fn props(pairs: &[(&str, &str)]) -> Props {
    let mut p = Props::new();
    for (k, v) in pairs {
        p.insert(k.to_string(), v.to_string());
    }
    p
}

#[test]
fn nodes_texts_and_blanks() {
    let f = file("<?xml version=\"1.0\"?><!-- c --><project a=\"1\">\n <a>1</a><b><c> x </c></b><blank>  \n</blank><self/></project>");
    assert_eq!(text(&f, "a"), Some("1"));
    assert_eq!(text(&f, "b/c"), Some(" x "));
    assert!(f.root().get("blank").is_none());
    assert!(f.root().get("self").is_none());
    assert!(f.root().get("a/x").is_none());
    assert_eq!(f.root().find_str("b.c").map(|s| s.as_str()), Some(" x "));
    assert!(f.root().find_str("b").is_none());
}

#[test]
fn references_are_passed_over() {
    let f = file("<p><t>a &amp; b</t><d><![CDATA[x]]>y</d></p>");
    assert_eq!(text(&f, "t"), Some("a  b"));
    assert_eq!(text(&f, "d"), Some("y"));
}

#[test]
fn last_root_counts_and_one_is_needed() {
    assert_eq!(text(&file("<a><x>1</x></a><b><x>2</x></b>"), "x"), Some("2"));
    assert_eq!(XmlFile::from_str("").unwrap_err(), NoRoot);
    assert_eq!(XmlFile::from_str("just text").unwrap_err(), NoRoot);
    assert_eq!(XmlFile::from_str("<a></a>").unwrap_err(), NoRoot);
}

#[test]
fn broken_xml_is_read_as_far_as_it_goes() {
    let f = file("<p><a>1</b></a><c>2</c>");
    assert!(f.root().get("a").is_some());
    let open = file("<p><a>1");
    assert_eq!(text(&open, "a"), Some("1"));
}

#[test]
fn file_of_given_steps() {
    let events = vec![
        XmlEvent::Other,
        XmlEvent::Start("p".to_string()),
        XmlEvent::Text(" ".to_string()),
        XmlEvent::Start("a".to_string()),
        XmlEvent::Text("1".to_string()),
        XmlEvent::Text("2".to_string()),
        XmlEvent::End,
        XmlEvent::Start("b".to_string()),
        XmlEvent::End,
        XmlEvent::End,
    ];
    let f = XmlFile::from_events(&events).unwrap();
    assert_eq!(f.root(), &XmlNode::Children(vec![("a".to_string(), XmlNode::Text("12".to_string()))]));
    let (node, next) = XmlNode::parse(&events, 4);
    assert_eq!(node, XmlNode::Text("12".to_string()));
    assert_eq!(next, 7);
}

#[test]
fn nodes_can_be_changed_in_place() {
    let mut f = file("<p><a><b>1</b><b>2</b></a></p>");
    *f.root_mut().get_mut("a/b").unwrap() = XmlNode::Text("9".to_string());
    assert_eq!(text(&f, "a/b"), Some("9"));
    assert!(f.root_mut().get_mut("a/x").is_none());
    assert!(f.root_mut().get_mut("a/b/c").is_none());
    assert_eq!(f, file("<p><a><b>9</b><b>2</b></a></p>"));
}

#[test]
fn merging_keeps_what_is_there() {
    let mut a = file("<p><version>1</version><x><y>own</y></x></p>");
    let b = file("<p><version>2</version><artifactId>no</artifactId><x><y>their</y><z>new</z></x><w>more</w></p>");
    a.merge_pom(&b);
    assert_eq!(a, file("<p><version>1</version><x><y>own</y><z>new</z></x><w>more</w></p>"));
    let same = a.copy();
    a.merge_pom(&same);
    assert_eq!(a, same);
}

#[test]
fn merging_tells_nodes_apart_by_key() {
    let mut a = file("<p><ds><dependency><groupId>g</groupId><artifactId>a</artifactId><version>1</version></dependency></ds></p>");
    let b = file("<p><ds><dependency><groupId>g</groupId><artifactId>a</artifactId><version>2</version></dependency><dependency><groupId>g</groupId><artifactId>b</artifactId></dependency></ds></p>");
    a.merge_pom(&b);
    assert_eq!(a, file("<p><ds><dependency><groupId>g</groupId><artifactId>a</artifactId><version>1</version></dependency><dependency><groupId>g</groupId><artifactId>b</artifactId></dependency></ds></p>"));
    let mut c = file("<p><execution><id>1</id></execution></p>");
    c.merge_pom(&file("<p><execution><id>1</id><x>y</x></execution><execution><id>2</id></execution></p>"));
    assert_eq!(c, file("<p><execution><id>1</id></execution><execution><id>2</id></execution></p>"));
}

#[test]
fn every_withheld_node() {
    let mut a = file("<p><k>1</k></p>");
    a.merge_pom(&file(
        "<p><modelVersion>4</modelVersion><artifactId>a</artifactId><packaging>pom</packaging><profiles>p</profiles><prerequisites>q</prerequisites><groupId>g</groupId></p>",
    ));
    assert_eq!(a, file("<p><k>1</k><groupId>g</groupId></p>"));
}

#[test]
fn templates_come_from_three_places() {
    let mut f = file(
        "<project><version>1.5</version><build><dir>out</dir></build><properties><x.y>prop</x.y><os.name>own</os.name></properties><t><a>${x.y}</a><b>${project.version}</b><c>${project.build.dir}</c><d>${os.name}</d><e>${given}</e><f>${unknown}</f></t></project>",
    );
    f.replace_templates(&props(&[("given", "G")]), &props(&[("os.name", "linux"), ("given", "no")]));
    for (name, value) in [("a", "prop"), ("b", "1.5"), ("c", "out"), ("d", "linux"), ("e", "G"), ("f", "${unknown}")] {
        assert_eq!(text(&f, &format!("t/{name}")), Some(value));
    }
}

#[test]
fn names_in_templates_are_looked_up() {
    let f = file(
        "<project><version>1.0</version><properties><v>2</v></properties><x>${v} ${project.version} ${nope} ${k}</x></project>",
    );
    let mut p = props(&[("k", "0")]);
    let mut missing: OrdSet<String> = OrdSet::new();
    for _ in 0..2 {
        resolve_template_references(&mut p, &mut missing, f.root(), f.root());
        for (name, value) in [("k", Some("0")), ("project.version", Some("1.0")), ("v", Some("2")), ("nope", None)] {
            assert_eq!(p.get(name).map(|s| s.as_str()), value);
        }
        assert_eq!(missing.len(), 1);
        assert_eq!(missing.at(0), "nope");
    }
}

#[test]
fn templates_right_after_a_shorter_value_wait_for_the_next_pass() {
    let mut f = file("<project><version>1.5</version><properties><x.y>prop</x.y></properties><t>${x.y}-${project.version}</t></project>");
    let none = Props::new();
    f.replace_templates(&none, &none);
    assert_eq!(text(&f, "t"), Some("prop-${project.version}"));
    f.replace_templates(&none, &none);
    assert_eq!(text(&f, "t"), Some("prop-1.5"));
}

#[test]
fn template_forms() {
    let p = props(&[("a", "1"), ("}", "brace"), ("long", "${a}"), ("x", "xyz")]);
    let applied = |s: &str| {
        let mut n = XmlNode::Text(s.to_string());
        apply_templates(&p, &mut n);
        match n {
            XmlNode::Text(t) => t,
            XmlNode::Children(_) => panic!(),
        }
    };
    assert_eq!(applied("none"), "none");
    assert_eq!(applied("${a}${a}"), "11");
    assert_eq!(applied("${}}"), "brace");
    assert_eq!(applied("${}"), "${}");
    assert_eq!(applied("${a\n}"), "${a\n}");
    assert_eq!(applied("$${a}"), "$1");
    assert_eq!(applied("é${a}ü"), "é1ü");
    // The search goes on in the middle of a character.
    assert_eq!(applied("${x}é${a}"), "xyzé1");
    // The search goes on where the template ended, so what comes before is left alone.
    assert_eq!(applied("${long}"), "${a}");
    assert_eq!(applied("${long} and ${a}"), "1 and 1");
}

#[test]
fn replacing_goes_from_the_left() {
    assert_eq!(replace("aaa", "aa", "b"), "ba");
    assert_eq!(replace("xyx", "x", "xx"), "xxyxx");
    assert_eq!(replace("abc", "d", "e"), "abc");
    assert_eq!(replace("abc", "", "e"), "abc");
}

#[test]
fn properties_in_order_of_precedence() {
    let mut p = props(&[("a", "1"), ("a", "2")]);
    assert_eq!(p.get("a").map(|s| s.as_str()), Some("2"));
    p.insert("b".to_string(), "3".to_string());
    let both = p.over(&props(&[("a", "x"), ("c", "y")]));
    assert_eq!(both.get("a").map(|s| s.as_str()), Some("2"));
    assert_eq!(both.get("c").map(|s| s.as_str()), Some("y"));
    assert_eq!(both.get("d"), None);
}

fn dep(inner: &str) -> String {
    format!("<dependency><groupId>g</groupId><artifactId>a</artifactId>{inner}</dependency>")
}

fn read_dep(inner: &str) -> Option<Dependency> {
    let f = file(&format!("<list>{}</list>", dep(inner)));
    f.root().read_as::<Vec<Dependency>>().ok().map(|mut v| v.remove(0))
}

#[test]
fn dependency_fields() {
    let d = read_dep("<version>1</version><scope>runtime</scope><type>war</type><classifier>c</classifier><exclusions><exclusion><groupId>x</groupId><artifactId>y</artifactId></exclusion></exclusions><other>z</other>").unwrap();
    assert_eq!(d.group_id.as_str(), "g");
    assert_eq!(d.version.unwrap().as_str(), "1");
    assert_eq!(d.scope, DependencyScope::Runtime);
    assert_eq!(d.artifact_type, "war");
    assert_eq!(d.classifier.as_deref(), Some("c"));
    assert!(!d.optional);
    assert_eq!(d.exclusions[0].to_pattern().unwrap().to_string(), "x:y");
    let bare = read_dep("").unwrap();
    assert!(bare.version.is_none());
    assert_eq!(bare.scope, DependencyScope::Compile);
    assert_eq!(bare.artifact_type, "jar");
}

#[test]
fn dependencies_that_cannot_be_read() {
    assert!(read_dep("<groupId>again</groupId>").is_none());
    assert!(read_dep("<scope>odd</scope>").is_none());
    assert!(read_dep("<optional>true</optional>").is_none());
    assert!(read_dep("<version><x>1</x></version>").is_none());
    assert!(read_dep("<exclusions>text</exclusions>").is_none());
    assert!(read_dep("<exclusions><exclusion><groupId>x</groupId></exclusion></exclusions>").is_none());
    assert!(file("<list><d>text</d></list>").root().read_as::<Vec<Dependency>>().is_err());
    for (word, scope) in [
        ("compile", DependencyScope::Compile),
        ("provided", DependencyScope::Provided),
        ("runtime", DependencyScope::Runtime),
        ("test", DependencyScope::Test),
        ("system", DependencyScope::System),
        ("import", DependencyScope::Import),
    ] {
        assert_eq!(DependencyScope::from_str(word), Some(scope));
    }
}

#[test]
fn parents_and_poms() {
    let f = file("<p><parent><groupId>g</groupId><artifactId>a</artifactId><version>1</version></parent></p>");
    let p = f.root().get("parent").unwrap().read_as::<Parent>().unwrap();
    assert_eq!(p.artifact_id.as_str(), "a");
    assert!(f.root().read_as::<Parent>().is_err());
    let pom = f.root().read_as::<Pom>().unwrap();
    assert!(pom.dependency_management.is_none());
    assert!(pom.dependencies.is_empty());
    assert!(file("<p><dependencyManagement><x>1</x></dependencyManagement></p>").root().read_as::<Pom>().is_err());
}

#[test]
fn pom_hands_on_its_dependencies() {
    let f = file(&format!(
        "<p><dependencyManagement><dependencies><dependency><groupId>g</groupId><artifactId>a</artifactId><version>7</version></dependency></dependencies></dependencyManagement><dependencies>{}{}{}{}</dependencies></p>",
        dep("<type>test-jar</type>"),
        "<dependency><groupId>t</groupId><artifactId>t</artifactId><scope>test</scope></dependency>",
        "<dependency><groupId>r</groupId><artifactId>r</artifactId><version>2</version><scope>runtime</scope><exclusions><exclusion><groupId>*</groupId><artifactId>*</artifactId></exclusion></exclusions></dependency>",
        "<dependency><groupId>p</groupId><artifactId>p</artifactId><version>2</version><scope>provided</scope></dependency>",
    ));
    let deps = extract_pom_deps(&f).unwrap();
    assert_eq!(deps.len(), 2);
    let (c, d) = deps.at(0);
    assert_eq!(c.to_string(), "g:a:7");
    assert_eq!(d.scope, PomScope::Compile);
    assert_eq!(d.classifier.as_deref(), Some("tests"));
    let (c, d) = deps.at(1);
    assert_eq!(c.to_string(), "r:r:2");
    assert_eq!(d.scope, PomScope::Runtime);
    assert_eq!(d.exclusions.at(0).to_string(), "*:*");
}

#[test]
fn poms_that_cannot_be_used() {
    let deps = |s: &str| extract_pom_deps(&file(&format!("<p><dependencies>{s}</dependencies></p>"))).unwrap_err();
    assert_eq!(deps(&dep("")), PomFault::MissingVersion("g".to_string(), "a".to_string()));
    assert_eq!(deps(&dep("<optional>true</optional>")), PomFault::Unreadable);
    assert_eq!(
        deps(&dep("<version>1</version><exclusions><exclusion><groupId>[</groupId><artifactId>y</artifactId></exclusion></exclusions>")),
        PomFault::Exclusion(PatternError::InvalidGroup)
    );
}

#[test]
fn pom_is_put_together() {
    let none = Props::new();
    let own = file("<project><parent><groupId>g</groupId><artifactId>parent</artifactId><version>1</version></parent><artifactId>me</artifactId><v>${x}</v></project>");
    let parent = file("<project><artifactId>parent</artifactId><properties><x>from-parent</x></properties><dependencyManagement><dependencies><dependency><groupId>b</groupId><artifactId>bom</artifactId><version>2</version><scope>import</scope><type>pom</type></dependency></dependencies></dependencyManagement></project>");
    let bom = file("<project><dependencyManagement><dependencies><dependency><groupId>m</groupId><artifactId>m</artifactId><version>3</version></dependency></dependencies></dependencyManagement></project>");
    let base = file("<project><w>base</w><artifactId>super</artifactId></project>");
    let a = Assembly::begin(own, &none);
    assert_eq!(a.need().unwrap().unwrap().to_string(), "g:parent:1");
    let a = a.supply(&parent, &none);
    assert_eq!(a.need().unwrap().unwrap().to_string(), "b:bom:2");
    let a = a.supply(&bom, &none);
    assert!(a.need().unwrap().is_none());
    let f = a.finish(&base, &none);
    assert_eq!(text(&f, "artifactId"), Some("me"));
    assert_eq!(text(&f, "v"), Some("from-parent"));
    assert_eq!(text(&f, "w"), Some("base"));
    let managed = f.root().get("dependencyManagement/dependencies").unwrap().read_as::<Vec<Dependency>>().unwrap();
    assert_eq!(managed.len(), 2);
    assert_eq!(managed[1].artifact_id.as_str(), "m");
}

#[test]
fn poms_that_cannot_be_put_together() {
    let none = Props::new();
    let a = Assembly::begin(
        file("<p><parent><groupId>g</groupId><artifactId>a</artifactId></parent></p>"),
        &none,
    );
    assert_eq!(a.need().unwrap_err(), PomFault::ParentVersion);
    let b = Assembly::begin(
        file("<p><dependencyManagement><dependencies><dependency><groupId>g</groupId><artifactId>a</artifactId><scope>import</scope></dependency></dependencies></dependencyManagement></p>"),
        &none,
    );
    assert_eq!(b.need().unwrap_err(), PomFault::ImportVersion);
    let unreadable = Assembly::begin(file("<p><parent>odd</parent></p>"), &none);
    assert!(unreadable.need().unwrap().is_none());
}

#[test]
fn import_without_management_changes_nothing() {
    let none = Props::new();
    let mut x = file("<p><a>1</a></p>");
    let before = x.copy();
    take_import(&mut x, &file("<p><dependencyManagement><dependencies><d>1</d></dependencies></dependencyManagement></p>"), &none);
    assert_eq!(x, before);
    take_import(&mut x, &file("<p><b>1</b></p>"), &none);
    assert_eq!(x, before);
}

#[test]
fn managed_versions_do_not_override() {
    let managed = "<dependencyManagement><dependencies><dependency><groupId>g</groupId><artifactId>a</artifactId><version>9</version></dependency></dependencies></dependencyManagement>";
    let f = file(&format!("<p>{managed}<dependencies>{}</dependencies></p>", dep("<version>1</version>")));
    assert_eq!(extract_pom_deps(&f).unwrap().at(0).0.to_string(), "g:a:1");
    let twice = file(&format!("<p>{managed}<dependencies>{}{}</dependencies></p>", dep(""), dep("<scope>runtime</scope>")));
    assert_eq!(
        extract_pom_deps(&twice).unwrap_err(),
        PomFault::MissingVersion("g".to_string(), "a".to_string())
    );
}

#[test]
fn system_properties_are_named() {
    let s = |t: &str| t.to_string();
    let info = SystemInfo {
        java_home: s("/j"),
        java_version: None,
        os_name: s("linux"),
        os_arch: s("x86_64"),
        user_home: Some(s("/home/u")),
        user_dir: s("/w"),
        file_separator: s("/"),
        path_separator: s(":"),
    };
    let p = java_system_properties(&info);
    for (name, value) in [
        ("java.home", "/j"),
        ("os.name", "linux"),
        ("os.arch", "x86_64"),
        ("user.home", "/home/u"),
        ("user.dir", "/w"),
        ("file.separator", "/"),
        ("path.separator", ":"),
    ] {
        assert_eq!(p.get(name).map(|v| v.as_str()), Some(value));
    }
    assert_eq!(p.get("java.version"), None);
}
