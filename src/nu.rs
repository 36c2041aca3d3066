//! Nushell completions: one `export extern` block per command.
use vstd::prelude::*;
use crate::output::{Output, line_text, lines_text, lemma_lines_text_append};
use crate::parse::{CommandInfo, Flag, FlagView};

verus! {

/// A form of exactly two characters (such as `-v`) counts as short.
pub open spec fn is_short(form: Seq<char>) -> bool {
    form.len() == 2
}

/// The short forms, in their original order.
pub open spec fn short_forms(forms: Seq<Seq<char>>) -> Seq<Seq<char>> {
    forms.filter(|f: Seq<char>| is_short(f))
}

/// The long forms, in their original order.
pub open spec fn long_forms(forms: Seq<Seq<char>>) -> Seq<Seq<char>> {
    forms.filter(|f: Seq<char>| !is_short(f))
}

/// `" # <desc>"` when there is a description, else nothing.
pub open spec fn desc_suffix(desc: Option<Seq<char>>) -> Seq<char> {
    match desc {
        Some(d) => " # "@ + d,
        None => Seq::empty(),
    }
}

/// The lines written for one flag: the i-th long form paired with the i-th
/// short form as `long(short)`, then the long forms left over, then the
/// short forms left over, each followed by the description suffix.
pub open spec fn flag_lines(flag: FlagView) -> Seq<Seq<char>> {
    let shorts = short_forms(flag.forms);
    let longs = long_forms(flag.forms);
    let suffix = desc_suffix(flag.desc);
    let n = if shorts.len() < longs.len() {
        shorts.len()
    } else {
        longs.len()
    };
    Seq::new(n, |i: int| longs[i] + "("@ + shorts[i] + ")"@ + suffix) + Seq::new(
        (longs.len() - n) as nat,
        |i: int| longs[n + i] + suffix,
    ) + Seq::new((shorts.len() - n) as nat, |i: int| shorts[n + i] + suffix)
}

/// The lines of all the flags, one flag after the other.
pub open spec fn flags_lines(flags: Seq<Flag>) -> Seq<Seq<char>>
    decreases flags.len(),
{
    if flags.len() == 0 {
        Seq::empty()
    } else {
        flags_lines(flags.drop_last()) + flag_lines(flags.last()@)
    }
}

proof fn lemma_lines_text_push(unit: Seq<char>, depth: nat, lines: Seq<Seq<char>>, l: Seq<char>)
    ensures
        lines_text(unit, depth, lines.push(l)) == lines_text(unit, depth, lines) + line_text(
            unit,
            depth,
            l,
        ),
{
    assert(lines.push(l).drop_last() =~= lines);
}

/// Writes the lines of one flag at the current depth.
fn write_flag(flag: &Flag, out: &mut Output)
    ensures
        final(out)@.text == old(out)@.text + lines_text(
            old(out)@.unit,
            old(out)@.depth,
            flag_lines(flag@),
        ),
        final(out)@.depth == old(out)@.depth,
        final(out)@.unit == old(out)@.unit,
{
    let ghost forms = flag@.forms;
    let mut shorts: Vec<String> = Vec::new();
    let mut longs: Vec<String> = Vec::new();
    let mut i: usize = 0;
    while i < flag.forms.len()
        invariant
            i <= flag.forms.len(),
            forms == flag@.forms,
            shorts@.map_values(|f: String| f@) == short_forms(forms.take(i as int)),
            longs@.map_values(|f: String| f@) == long_forms(forms.take(i as int)),
        decreases flag.forms.len() - i,
    {
        let form = &flag.forms[i];
        let ghost before = forms.take(i as int);
        let ghost after = forms.take(i + 1);
        assert(after.drop_last() =~= before);
        assert(after.last() == form@);
        reveal(Seq::filter);
        let ghost old_shorts = shorts@;
        let ghost old_longs = longs@;
        if form.as_str().unicode_len() == 2 {
            shorts.push(form.clone());
            assert(shorts@.map_values(|f: String| f@) =~= old_shorts.map_values(|f: String| f@).push(form@));
        } else {
            longs.push(form.clone());
            assert(longs@.map_values(|f: String| f@) =~= old_longs.map_values(|f: String| f@).push(form@));
        }
        i = i + 1;
    }
    assert(forms.take(flag.forms.len() as int) =~= forms);
    let ghost sv = short_forms(forms);
    let ghost lv = long_forms(forms);
    assert(forall|k: int| 0 <= k < shorts.len() ==> shorts@[k]@ == #[trigger] sv[k]);
    assert(forall|k: int| 0 <= k < longs.len() ==> longs@[k]@ == #[trigger] lv[k]);

    let suffix = match &flag.desc {
        Some(d) => {
            let mut s = String::from_str(" # ");
            s.append(d.as_str());
            s
        },
        None => String::new(),
    };
    assert(suffix@ == desc_suffix(flag@.desc));

    let ghost lines = flag_lines(flag@);
    let ghost unit = out@.unit;
    let ghost depth = out@.depth;
    let ghost start = out@.text;
    let n: usize = if shorts.len() < longs.len() {
        shorts.len()
    } else {
        longs.len()
    };
    assert(lines.take(0) =~= Seq::<Seq<char>>::empty());
    let mut j: usize = 0;
    while j < n
        invariant
            j <= n,
            n <= shorts.len(),
            n <= longs.len(),
            n == shorts.len() || n == longs.len(),
            lines == flag_lines(flag@),
            sv == short_forms(forms),
            lv == long_forms(forms),
            forms == flag@.forms,
            shorts.len() == sv.len(),
            longs.len() == lv.len(),
            forall|k: int| 0 <= k < shorts.len() ==> shorts@[k]@ == #[trigger] sv[k],
            forall|k: int| 0 <= k < longs.len() ==> longs@[k]@ == #[trigger] lv[k],
            suffix@ == desc_suffix(flag@.desc),
            out@.unit == unit,
            out@.depth == depth,
            out@.text == start + lines_text(unit, depth, lines.take(j as int)),
        decreases n - j,
    {
        let mut line = longs[j].clone();
        line.append("(");
        line.append(shorts[j].as_str());
        line.append(")");
        line.append(suffix.as_str());
        assert(line@ == lines[j as int]);
        assert(lines.take(j + 1) =~= lines.take(j as int).push(line@));
        proof {
            lemma_lines_text_push(unit, depth, lines.take(j as int), line@);
        }
        out.writeln(line.as_str());
        j = j + 1;
    }
    let mut k: usize = n;
    while k < longs.len()
        invariant
            n <= k <= longs.len(),
            n <= shorts.len(),
            n == shorts.len() || n == longs.len(),
            lines == flag_lines(flag@),
            sv == short_forms(forms),
            lv == long_forms(forms),
            forms == flag@.forms,
            shorts.len() == sv.len(),
            longs.len() == lv.len(),
            forall|k: int| 0 <= k < longs.len() ==> longs@[k]@ == #[trigger] lv[k],
            suffix@ == desc_suffix(flag@.desc),
            out@.unit == unit,
            out@.depth == depth,
            out@.text == start + lines_text(unit, depth, lines.take(k as int)),
        decreases longs.len() - k,
    {
        let mut line = longs[k].clone();
        line.append(suffix.as_str());
        assert(line@ == lines[k as int]);
        assert(lines.take(k + 1) =~= lines.take(k as int).push(line@));
        proof {
            lemma_lines_text_push(unit, depth, lines.take(k as int), line@);
        }
        out.writeln(line.as_str());
        k = k + 1;
    }
    let mut m: usize = n;
    while m < shorts.len()
        invariant
            n <= m <= shorts.len(),
            n <= longs.len(),
            n == shorts.len() || n == longs.len(),
            lines == flag_lines(flag@),
            sv == short_forms(forms),
            lv == long_forms(forms),
            forms == flag@.forms,
            shorts.len() == sv.len(),
            longs.len() == lv.len(),
            forall|k: int| 0 <= k < shorts.len() ==> shorts@[k]@ == #[trigger] sv[k],
            suffix@ == desc_suffix(flag@.desc),
            out@.unit == unit,
            out@.depth == depth,
            out@.text == start + lines_text(unit, depth, lines.take(longs.len() + m - n)),
        decreases shorts.len() - m,
    {
        let mut line = shorts[m].clone();
        line.append(suffix.as_str());
        let ghost c = longs.len() + m - n;
        assert(line@ == lines[c]);
        assert(lines.take(c + 1) =~= lines.take(c).push(line@));
        proof {
            lemma_lines_text_push(unit, depth, lines.take(c), line@);
        }
        out.writeln(line.as_str());
        m = m + 1;
    }
    assert(lines.take(longs.len() + shorts.len() - n) =~= lines);
}

/// The line that opens the declaration of the command at `path`.
pub open spec fn opening_line(path: Seq<char>) -> Seq<char> {
    "export extern \""@ + path + "\" ["@
}

/// The text of one command block and of its subcommands' blocks, written at
/// `depth` with `unit` per level. `path` is the command's qualified name; a
/// block that is not the first is preceded by a blank line.
pub open spec fn command_text(
    path: Seq<char>,
    cmd: CommandInfo,
    first: bool,
    unit: Seq<char>,
    depth: nat,
) -> Seq<char>
    decreases cmd,
{
    (if first {
        Seq::empty()
    } else {
        line_text(unit, depth, ""@)
    }) + line_text(unit, depth, opening_line(path)) + lines_text(
        unit,
        depth + 1,
        flags_lines(cmd.flags@),
    ) + line_text(unit, depth, "]"@) + subcommands_text(path, cmd.subcommands@, unit, depth)
}

/// The blocks of `subs`, in order, each qualified as `path + " " + name`.
pub open spec fn subcommands_text(
    path: Seq<char>,
    subs: Seq<CommandInfo>,
    unit: Seq<char>,
    depth: nat,
) -> Seq<char>
    decreases subs,
{
    if subs.len() == 0 {
        Seq::empty()
    } else {
        subcommands_text(path, subs.drop_last(), unit, depth) + command_text(
            path + " "@ + subs.last().name@,
            subs.last(),
            false,
            unit,
            depth,
        )
    }
}

/// Writes the block of `cmd`, named `cmd_name`, and then the blocks of its
/// subcommands, leaving the depth as it found it.
pub fn generate_cmd(cmd_name: &str, cmd: &CommandInfo, out: &mut Output, first: bool)
    requires
        old(out)@.depth < usize::MAX,
    ensures
        final(out)@.text == old(out)@.text + command_text(
            cmd_name@,
            *cmd,
            first,
            old(out)@.unit,
            old(out)@.depth,
        ),
        final(out)@.depth == old(out)@.depth,
        final(out)@.unit == old(out)@.unit,
    decreases cmd,
{
    let ghost unit = out@.unit;
    let ghost depth = out@.depth;
    let ghost start = out@.text;
    if !first {
        // no blank line at the very top of the file
        out.writeln("");
    }
    let mut open = String::from_str("export extern \"");
    open.append(cmd_name);
    open.append("\" [");
    out.writeln(open.as_str());
    out.indent();

    let ghost head = out@.text;
    let mut i: usize = 0;
    while i < cmd.flags.len()
        invariant
            i <= cmd.flags.len(),
            out@.unit == unit,
            out@.depth == depth + 1,
            out@.text == head + lines_text(unit, depth + 1, flags_lines(cmd.flags@.take(i as int))),
        decreases cmd.flags.len() - i,
    {
        let ghost done = cmd.flags@.take(i as int);
        assert(cmd.flags@.take(i + 1).drop_last() =~= done);
        proof {
            lemma_lines_text_append(unit, depth + 1, flags_lines(done), flag_lines(cmd.flags@[i as int]@));
        }
        write_flag(&cmd.flags[i], out);
        i = i + 1;
    }
    assert(cmd.flags@.take(cmd.flags.len() as int) =~= cmd.flags@);
    out.dedent();
    out.writeln("]");

    let ghost mid = out@.text;
    assert(mid == start + (if first {
        Seq::empty()
    } else {
        line_text(unit, depth, ""@)
    }) + line_text(unit, depth, opening_line(cmd_name@)) + lines_text(
        unit,
        depth + 1,
        flags_lines(cmd.flags@),
    ) + line_text(unit, depth, "]"@));
    let mut j: usize = 0;
    while j < cmd.subcommands.len()
        invariant
            j <= cmd.subcommands.len(),
            out@.unit == unit,
            out@.depth == depth,
            depth < usize::MAX,
            out@.text == mid + subcommands_text(cmd_name@, cmd.subcommands@.take(j as int), unit, depth),
        decreases cmd.subcommands.len() - j,
    {
        let sub = &cmd.subcommands[j];
        let mut path = String::from_str(cmd_name);
        path.append(" ");
        path.append(sub.name.as_str());
        assert(cmd.subcommands@.take(j + 1).drop_last() =~= cmd.subcommands@.take(j as int));
        assert(decreases_to!(*cmd => cmd.subcommands@[j as int]));
        generate_cmd(path.as_str(), sub, out, false);
        j = j + 1;
    }
    assert(cmd.subcommands@.take(cmd.subcommands.len() as int) =~= cmd.subcommands@);
    assert(out@.text =~= start + command_text(cmd_name@, *cmd, first, unit, depth));
}

/// The full text generated for `cmd`: its block and those of its
/// subcommands, indented by two spaces per level.
pub open spec fn generated_text(cmd: CommandInfo) -> Seq<char> {
    command_text(cmd.name@, cmd, true, "  "@, 0)
}

/// Generates the Nushell completions for `cmd`.
pub fn generate(cmd: &CommandInfo) -> (r: String)
    ensures
        r@ == generated_text(*cmd),
{
    let mut res = Output::new(String::from_str("  "));
    generate_cmd(cmd.name.as_str(), cmd, &mut res, true);
    res.text()
}

/// The name of the file that holds the completions for `cmd`.
pub fn file_name(cmd: &CommandInfo) -> (r: String)
    ensures
        r@ == cmd.name@ + ".nu"@,
{
    let mut r = cmd.name.clone();
    r.append(".nu");
    r
}

/// A command with no flags and no subcommands generates exactly its opening
/// line and its closing line, with no blank line before them.
pub proof fn lemma_leaf_command(cmd: CommandInfo)
    requires
        cmd.flags@.len() == 0,
        cmd.subcommands@.len() == 0,
    ensures
        generated_text(cmd) == opening_line(cmd.name@) + "\n"@ + "]"@ + "\n"@,
{
    assert(crate::output::indentation("  "@, 0) =~= Seq::<char>::empty());
    assert(lines_text("  "@, 1, flags_lines(cmd.flags@)) =~= Seq::<char>::empty());
    assert(generated_text(cmd) =~= opening_line(cmd.name@) + "\n"@ + "]"@ + "\n"@);
}

/// A flag with one short and one long form, in either order, gives the
/// single line `long(short)` followed by its description suffix.
pub proof fn lemma_short_long_pair(flag: FlagView, short: Seq<char>, long: Seq<char>)
    requires
        flag.forms == seq![short, long] || flag.forms == seq![long, short],
        is_short(short),
        !is_short(long),
    ensures
        flag_lines(flag) == seq![long + "("@ + short + ")"@ + desc_suffix(flag.desc)],
{
    reveal_with_fuel(Seq::filter, 3);
    let forms = flag.forms;
    assert(forms.drop_last().drop_last() =~= Seq::<Seq<char>>::empty());
    assert(short_forms(forms) =~= seq![short]);
    assert(long_forms(forms) =~= seq![long]);
    assert(flag_lines(flag) =~= seq![long + "("@ + short + ")"@ + desc_suffix(flag.desc)]);
}

proof fn lemma_filter_all_long(forms: Seq<Seq<char>>)
    requires
        forall|i: int| 0 <= i < forms.len() ==> !is_short(#[trigger] forms[i]),
    ensures
        short_forms(forms) == Seq::<Seq<char>>::empty(),
        long_forms(forms) == forms,
    decreases forms.len(),
{
    reveal(Seq::filter);
    if forms.len() > 0 {
        let rest = forms.drop_last();
        assert(forall|i: int| 0 <= i < rest.len() ==> rest[i] == forms[i]);
        lemma_filter_all_long(rest);
        assert(rest.push(forms.last()) =~= forms);
    }
}

/// When no form of a flag is short, every form is written on a line of its
/// own, in the original order, and none is paired.
pub proof fn lemma_all_long(flag: FlagView)
    requires
        forall|i: int| 0 <= i < flag.forms.len() ==> !is_short(#[trigger] flag.forms[i]),
    ensures
        flag_lines(flag) == flag.forms.map_values(|f: Seq<char>| f + desc_suffix(flag.desc)),
{
    lemma_filter_all_long(flag.forms);
    assert(flag_lines(flag) =~= flag.forms.map_values(|f: Seq<char>| f + desc_suffix(flag.desc)));
}

/// Generation depends on the command tree alone: two runs on the same tree
/// give the same text.
pub proof fn lemma_generate_idempotent(cmd: CommandInfo, first_run: Seq<char>, second_run: Seq<char>)
    requires
        first_run == generated_text(cmd),
        second_run == generated_text(cmd),
    ensures
        first_run == second_run,
{
}

} // verus!
