use man_completions::nu::{file_name, generate, generate_cmd};
use man_completions::{CommandInfo, Flag, Output};

fn flag(forms: &[&str], desc: Option<&str>) -> Flag {
    Flag {
        forms: forms.iter().map(|f| f.to_string()).collect(),
        desc: desc.map(|d| d.to_string()),
    }
}

fn cmd(name: &str, flags: Vec<Flag>, subcommands: Vec<CommandInfo>) -> CommandInfo {
    CommandInfo { name: name.to_string(), flags, subcommands }
}

#[test]
fn leaf_command_is_two_lines() {
    let c = cmd("ls", vec![], vec![]);
    assert_eq!(generate(&c), "export extern \"ls\" [\n]\n");
}

#[test]
fn empty_name_still_renders() {
    let c = cmd("", vec![], vec![]);
    assert_eq!(generate(&c), "export extern \"\" [\n]\n");
}

#[test]
fn short_and_long_pair_without_description() {
    let c = cmd("foo", vec![flag(&["-v", "--verbose"], None)], vec![]);
    assert_eq!(generate(&c), "export extern \"foo\" [\n  --verbose(-v)\n]\n");
}

#[test]
fn long_then_short_still_pairs() {
    let c = cmd("foo", vec![flag(&["--verbose", "-v"], None)], vec![]);
    assert_eq!(generate(&c), "export extern \"foo\" [\n  --verbose(-v)\n]\n");
}

#[test]
fn pair_with_description() {
    let c = cmd(
        "foo",
        vec![flag(&["-v", "--verbose"], Some("enable verbose output"))],
        vec![],
    );
    assert_eq!(
        generate(&c),
        "export extern \"foo\" [\n  --verbose(-v) # enable verbose output\n]\n"
    );
}

#[test]
fn two_long_forms_stay_apart() {
    let c = cmd("foo", vec![flag(&["--foo", "--bar"], None)], vec![]);
    assert_eq!(generate(&c), "export extern \"foo\" [\n  --foo\n  --bar\n]\n");
}

#[test]
fn two_short_forms_stay_apart() {
    let c = cmd("foo", vec![flag(&["-a", "-b"], Some("x"))], vec![]);
    assert_eq!(generate(&c), "export extern \"foo\" [\n  -a # x\n  -b # x\n]\n");
}

#[test]
fn leftover_long_then_leftover_short() {
    let c = cmd(
        "foo",
        vec![
            flag(&["-a", "-b", "--long"], None),
            flag(&["--one", "-c", "--two", "--three"], Some("d")),
        ],
        vec![],
    );
    assert_eq!(
        generate(&c),
        "export extern \"foo\" [\n  --long(-a)\n  -b\n  --one(-c) # d\n  --two # d\n  --three # d\n]\n"
    );
}

#[test]
fn two_characters_is_short_whatever_the_prefix() {
    let c = cmd("foo", vec![flag(&["ab", "-x-"], None)], vec![]);
    assert_eq!(generate(&c), "export extern \"foo\" [\n  -x-(ab)\n]\n");
}

#[test]
fn length_counts_characters() {
    let c = cmd("foo", vec![flag(&["-é", "--été"], None)], vec![]);
    assert_eq!(generate(&c), "export extern \"foo\" [\n  --été(-é)\n]\n");
}

#[test]
fn one_character_form_is_long() {
    let c = cmd("foo", vec![flag(&["v", "-w"], None)], vec![]);
    assert_eq!(generate(&c), "export extern \"foo\" [\n  v(-w)\n]\n");
}

#[test]
fn subcommand_is_qualified_and_separated() {
    let c = cmd("git", vec![], vec![cmd("commit", vec![], vec![])]);
    assert_eq!(
        generate(&c),
        "export extern \"git\" [\n]\n\nexport extern \"git commit\" [\n]\n"
    );
}

#[test]
fn nested_paths_accumulate() {
    let add = cmd("add", vec![flag(&["-f", "--fetch"], None)], vec![]);
    let remote = cmd("remote", vec![], vec![add]);
    let status = cmd("status", vec![flag(&["-s"], Some("short"))], vec![]);
    let c = cmd("git", vec![flag(&["--help"], None)], vec![remote, status]);
    assert_eq!(
        generate(&c),
        "export extern \"git\" [\n  --help\n]\n\
         \nexport extern \"git remote\" [\n]\n\
         \nexport extern \"git remote add\" [\n  --fetch(-f)\n]\n\
         \nexport extern \"git status\" [\n  -s # short\n]\n"
    );
}

#[test]
fn generation_twice_is_identical() {
    let c = cmd(
        "git",
        vec![flag(&["-v", "--version"], Some("show version"))],
        vec![cmd("commit", vec![flag(&["-m", "--message"], None)], vec![])],
    );
    let first = generate(&c);
    let second = generate(&c);
    assert_eq!(first, second);
}

#[test]
fn depth_is_restored_after_a_tree() {
    let c = cmd(
        "git",
        vec![flag(&["-v", "--version"], None)],
        vec![cmd("commit", vec![flag(&["-m"], None)], vec![])],
    );
    let mut out = Output::new("\t".to_string());
    out.indent();
    out.indent();
    generate_cmd("git", &c, &mut out, false);
    assert_eq!(out.depth(), 2);
    assert_eq!(
        out.text(),
        "\t\t\n\t\texport extern \"git\" [\n\t\t\t--version(-v)\n\t\t]\n\
         \t\t\n\t\texport extern \"git commit\" [\n\t\t\t-m\n\t\t]\n"
    );
}

#[test]
fn output_indents_each_line() {
    let mut out = Output::new("  ".to_string());
    out.writeln("a");
    out.indent();
    out.writeln("b");
    out.indent();
    out.writeln("");
    out.dedent();
    out.writeln("c");
    assert_eq!(out.depth(), 1);
    out.dedent();
    out.writeln("d");
    assert_eq!(out.depth(), 0);
    assert_eq!(out.text(), "a\n  b\n    \n  c\nd\n");
}

#[test]
fn output_text_does_not_reset() {
    let mut out = Output::new("--".to_string());
    assert_eq!(out.text(), "");
    out.writeln("x");
    assert_eq!(out.text(), "x\n");
    out.writeln("y");
    assert_eq!(out.text(), "x\ny\n");
}

#[test]
fn file_name_uses_nu_extension() {
    let c = cmd("git", vec![], vec![]);
    assert_eq!(file_name(&c), "git.nu");
}
