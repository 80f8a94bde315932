use classdiag::diagram::{extract_tree, header, merge_accessor_tags};
use classdiag::model::{is_interface, RunState};
use classdiag::extract::extract_file;
use classdiag::resolve::{render_arrows, resolve_arrows};

fn cs(s: &str) -> Vec<char> {
    s.chars().collect()
}

fn ls(lines: &[&str]) -> Vec<Vec<char>> {
    lines.iter().map(|l| l.chars().collect()).collect()
}

fn text(v: &Vec<char>) -> String {
    v.iter().collect()
}

fn run(files: &[&[&str]]) -> String {
    let input: Vec<Vec<Vec<char>>> = files.iter().map(|f| ls(f)).collect();
    text(&extract_tree(&input))
}

#[test]
fn header_lines() {
    assert_eq!(text(&header()), "classDiagram\ndirection RL");
}

#[test]
fn interface_convention() {
    assert!(is_interface("IFoo"));
    assert!(is_interface("IZ"));
    assert!(!is_interface("Int"));
    assert!(!is_interface("interface"));
    assert!(!is_interface("I"));
    assert!(!is_interface(""));
}

#[test]
fn interface_convention_is_unicode() {
    assert!(is_interface("I\u{0394}elta"));
    assert!(!is_interface("I\u{03B4}elta"));
}

#[test]
fn base_edge_kind_sees_unicode_uppercase() {
    let out = run(&[&["public class A : I\u{0394}base", "{", "}"]]);
    assert!(out.contains("\nA ..|> I\u{0394}base"));
}

#[test]
fn unicode_whitespace_is_trimmed() {
    let out = run(&[&["\u{00A0}\u{00A0}public class A", "{", "}"]]);
    assert_eq!(out, "classDiagram\ndirection RL\n\tclass A {\n\t}");
}

#[test]
fn empty_tree_renders_header_only() {
    assert_eq!(run(&[]), "classDiagram\ndirection RL");
}

#[test]
fn class_with_bases_renders_block_and_edges() {
    let out = run(&[&["public class Foo : Bar, IBaz", "{", "}"]]);
    assert_eq!(
        out,
        "classDiagram\ndirection RL\n\tclass Foo {\n\t}\nFoo --|> Bar\nFoo ..|> IBaz"
    );
}

#[test]
fn base_edge_kinds_follow_interface_shape() {
    let out = run(&[&["public class A : IOne", "{", "}"]]);
    assert!(out.contains("\nA ..|> IOne"));
    let out2 = run(&[&["public class A : One", "{", "}"]]);
    assert!(out2.contains("\nA --|> One"));
}

#[test]
fn method_rendering_with_two_params() {
    let out = run(&[&["public int Add(int a, int b)"]]);
    assert_eq!(out, "classDiagram\ndirection RL\n\t\t+ Add(a: int, b: int) int");
}

#[test]
fn method_glyphs_by_access() {
    let out = run(&[&["private void Go()"]]);
    assert_eq!(out, "classDiagram\ndirection RL\n\t\t- Go() void");
    let out2 = run(&[&["protected void Go()"]]);
    assert_eq!(out2, "classDiagram\ndirection RL\n\t\t# Go() void");
    let out3 = run(&[&["internal int Add(int a, int b)"]]);
    assert_eq!(out3, "classDiagram\ndirection RL\n\t\t+ Add(a: int, b: int) int");
}

#[test]
fn method_with_modifier_keeps_return_type() {
    let out = run(&[&["public static int Count(string s)"]]);
    assert_eq!(out, "classDiagram\ndirection RL\n\t\t+ Count(s: string) int");
}

#[test]
fn auto_property_gets_single_combined_tag() {
    let out = run(&[&["public class Holder", "{", "public int Count { get; set; }", "}"]]);
    assert_eq!(
        out,
        "classDiagram\ndirection RL\n\tclass Holder {\n\t\t+ Count: int, ~~get + set~~\n\t}"
    );
    assert!(!out.contains("~~get~~, ~~set~~"));
}

#[test]
fn accessor_fragments_on_their_own_lines_merge_too() {
    let out = run(&[&["public class A", "{", "public int X", "get;", "set;", "}"]]);
    assert!(out.contains("+ X: int, ~~get + set~~"));
}

#[test]
fn enum_inline_and_block_forms_agree() {
    let inline = run(&[&["enum Color { Red, Green, Blue }"]]);
    let block = run(&[&["enum Color {", "Red,", "Green,", "Blue,", "}"]]);
    assert_eq!(inline, block);
    assert_eq!(
        inline,
        "classDiagram\ndirection RL\n\tclass Color {\n\t\t<<enumerator>>\n\t\tRed\n\t\tGreen\n\t\tBlue\n\t}"
    );
}

#[test]
fn generic_field_yields_composition_when_declared() {
    let out = run(&[
        &["public class Widget", "{", "}"],
        &["public class Owner", "{", "private List<Widget> Items;", "}"],
    ]);
    assert!(out.contains("\n\t\t- Items: List~Widget~"));
    assert!(out.contains("\nOwner \"1\" --* \"1\" Widget"));
}

#[test]
fn undeclared_primitive_field_yields_no_edge() {
    let out = run(&[&["public class Owner", "{", "private int Count;", "}"]]);
    assert_eq!(out, "classDiagram\ndirection RL\n\tclass Owner {\n\t\t- Count: int\n\t}");
}

#[test]
fn nested_generic_rewrites_to_aggregation() {
    let out = run(&[
        &["public class Widget", "{", "}"],
        &["public class Owner", "{", "private List<List<Widget>> Items;", "}"],
    ]);
    assert!(out.contains("\nOwner \"0..*\" --o \"1\" Widget"));
}

#[test]
fn enum_typed_field_edge_survives() {
    let out = run(&[
        &["enum Color { Red }"],
        &["public class A", "{", "private Color C;", "}"],
    ]);
    assert!(out.contains("\nA \"0..*\" --o \"1\" Color"));
}

#[test]
fn running_twice_is_byte_identical() {
    let files: Vec<Vec<Vec<char>>> = vec![
        ls(&["public class Widget : IBase", "{", "public int Count { get; set; }", "}"]),
        ls(&["enum Color { Red, Green }"]),
        ls(&["public class Owner", "{", "private List<Widget> Items;", "}"]),
    ];
    let once = text(&extract_tree(&files));
    let twice = text(&extract_tree(&files));
    assert_eq!(once, twice);
}

#[test]
fn self_referential_field_yields_no_self_loop() {
    let out = run(&[&["public class Node", "{", "private Node Next;", "}"]]);
    assert!(!out.contains("--o"));
    assert!(!out.contains("--*"));
    assert_eq!(out, "classDiagram\ndirection RL\n\tclass Node {\n\t\t- Next: Node\n\t}");
}

#[test]
fn interface_declaration_gets_stereotype() {
    let out = run(&[&["public interface IFoo", "{", "}"]]);
    assert_eq!(out, "classDiagram\ndirection RL\n\tclass IFoo {\n\t\t<<interface>>\n\t}");
}

#[test]
fn event_field_gets_event_tag() {
    let out = run(&[&["public class A", "{", "public event Handler Changed;", "}"]]);
    assert!(out.contains("\n\t\t+ Changed: Handler, ~~event~~"));
}

#[test]
fn operator_lines_are_skipped() {
    let out = run(&[&["public static V operator +(V a, V b)"]]);
    assert_eq!(out, "classDiagram\ndirection RL");
}

#[test]
fn unqualified_lines_contribute_nothing() {
    let out = run(&[&["static void Main(string[] args)", "// a comment", ""]]);
    assert_eq!(out, "classDiagram\ndirection RL");
}

#[test]
fn data_context_assignment_yields_realization_hint() {
    let out = run(&[&[
        "public class MainWindow",
        "{",
        "DataContext => new MainViewModel();",
        "}",
    ]]);
    assert!(out.contains("\nMainWindow ..|> MainViewModel"));
}

#[test]
fn markup_class_and_named_element() {
    let out = run(&[&[
        "<Window x:Class=\"App.Views.MainWindow\"",
        "<Button x:Name=\"OkButton\" />",
    ]]);
    assert_eq!(
        out,
        "classDiagram\ndirection RL\n\tclass MainWindow {\n\t\t+ OkButton: Button\n\t}"
    );
}

#[test]
fn merge_pass_is_a_plain_substitution() {
    let v = cs("a ~~get~~, ~~set~~ b ~~get~~, ~~set~~");
    assert_eq!(text(&merge_accessor_tags(&v)), "a ~~get + set~~ b ~~get + set~~");
    let w = cs("~~get~~ alone, ~~set~~ apart");
    assert_eq!(text(&merge_accessor_tags(&w)), "~~get~~ alone, ~~set~~ apart");
}

#[test]
fn extract_file_accumulates_state() {
    let mut st = RunState::new();
    let f1 = ls(&["public class A : IBase", "{", "}"]);
    let frag1 = extract_file(&f1, &mut st);
    assert_eq!(text(&frag1), "\n\tclass A {\n\t}");
    let f2 = ls(&["public class B", "{", "private A Link;", "}"]);
    let _ = extract_file(&f2, &mut st);
    assert_eq!(st.classes.len(), 2);
    let resolved = resolve_arrows(&st);
    let lines = text(&render_arrows(&resolved));
    assert_eq!(lines, "\nA ..|> IBase\nB \"0..*\" --o \"1\" A");
}

#[test]
fn forward_declaration_is_not_a_type_block() {
    let out = run(&[&["public class Foo;"]]);
    assert!(!out.contains("class Foo {"));
}

#[test]
fn second_class_line_inside_open_block_does_not_reopen() {
    let out = run(&[&["public class A", "{", "public class B", "}"]]);
    assert_eq!(out.matches("\n\tclass").count(), 1);
}
