//! The text of the menu that the operator sees.

use crate::keys::{opt_key_ref, Key};
use crate::soundtree::parser::{bad_sounds_view, BadSoundError, BadSoundView};
use crate::soundtree::{sounds_view, MenuView, NodeView, SoundMap, SoundNode};
use crate::text::{char_is_digit, char_is_upper, is_digit, is_upper, str_eq, with_char};
use vstd::prelude::*;
use vstd::string::StringExecFns;

verus! {

/// The short label of a key: the digit of a digit key, `Num` and the digit
/// of a keypad digit, the letter of a letter key, and the name of any other.
pub open spec fn key_label(name: Seq<char>) -> Seq<char> {
    if name.len() == 6 && name.take(5) == "Digit"@ && is_digit(name[5]) {
        seq![name[5]]
    } else if name.len() == 7 && name.take(6) == "Numpad"@ && is_digit(name[6]) {
        "Num "@.push(name[6])
    } else if name.len() == 4 && name.take(3) == "Key"@ && is_upper(name[3]) {
        seq![name[3]]
    } else {
        name
    }
}

/// The short label of a key.
pub fn code_to_string(code: &Key) -> (label: String)
    ensures
        label@ == key_label(code@),
{
    let name = code.name();
    let len = name.unicode_len();
    if len == 6 && str_eq(name.substring_char(0, 5), "Digit") && char_is_digit(name.get_char(5)) {
        assert(name@.subrange(0, 5) =~= name@.take(5));
        let label = with_char("", name.get_char(5));
        proof {
            reveal_strlit("");
            assert(label@ =~= seq![name@[5]]);
        }
        return label;
    }
    if len == 7 && str_eq(name.substring_char(0, 6), "Numpad") && char_is_digit(name.get_char(6)) {
        assert(name@.subrange(0, 6) =~= name@.take(6));
        return with_char("Num ", name.get_char(6));
    }
    if len == 4 && str_eq(name.substring_char(0, 3), "Key") && char_is_upper(name.get_char(3)) {
        assert(name@.subrange(0, 3) =~= name@.take(3));
        let label = with_char("", name.get_char(3));
        proof {
            reveal_strlit("");
            assert(label@ =~= seq![name@[3]]);
        }
        return label;
    }
    proof {
        if len == 6 {
            assert(name@.subrange(0, 5) =~= name@.take(5));
        }
        if len == 7 {
            assert(name@.subrange(0, 6) =~= name@.take(6));
        }
        if len == 4 {
            assert(name@.subrange(0, 3) =~= name@.take(3));
        }
    }
    name.to_owned()
}

/// The character of a decimal digit.
pub open spec fn digit_char(d: nat) -> char {
    ((48 + d) as u8) as char
}

/// A number in decimal notation.
pub open spec fn decimal(n: nat) -> Seq<char>
    decreases n,
{
    if n < 10 {
        seq![digit_char(n)]
    } else {
        decimal(n / 10).push(digit_char(n % 10))
    }
}

/// Writes a number in decimal notation.
pub fn decimal_string(n: usize) -> (text: String)
    ensures
        text@ == decimal(n as nat),
    decreases n,
{
    if n < 10 {
        let text = with_char("", (48 + n as u8) as char);
        proof {
            reveal_strlit("");
            assert(text@ =~= seq![digit_char(n as nat)]);
        }
        text
    } else {
        let mut text = decimal_string(n / 10);
        text.push((48 + (n % 10) as u8) as char);
        text
    }
}

/// The line of one entry of a menu: the key's label in brackets, then the
/// name of the first variation and the number of variations, or the name of
/// the sub-menu and the number of its keys.
pub open spec fn entry_line(key: Seq<char>, node: NodeView) -> Seq<char> {
    match node {
        NodeView::Leaf(sounds) => "["@ + key_label(key) + "] "@ + sounds[0].0 + " ("@ + decimal(
            sounds.len(),
        ) + " variations)"@,
        NodeView::Branch(name, menu) => "["@ + key_label(key) + "] "@ + name + " ("@ + decimal(
            menu.len(),
        ) + " key binds)"@,
    }
}

/// The line that names the toggle key below a menu. It starts on a new line.
pub open spec fn toggle_off_line(key: Seq<char>) -> Seq<char> {
    "\nPress ["@ + key + "] to toggle soundboard off."@
}

/// What is shown while the soundboard is off.
pub open spec fn inactive_text(key: Seq<char>) -> Seq<char> {
    "Soundboard is off.\nPress ["@ + key + "] to toggle it back on."@
}

/// The node has a name to show: a leaf has a first variation.
pub open spec fn has_name(node: NodeView) -> bool {
    node matches NodeView::Leaf(sounds) ==> sounds.len() > 0
}

/// Every node of the menu has a name to show.
pub open spec fn all_named(menu: MenuView) -> bool {
    forall|i: int| 0 <= i < menu.len() ==> has_name((#[trigger] menu[i]).1)
}

/// Writes the line of one entry of a menu.
pub fn entry_text(key: &Key, node: &SoundNode) -> (line: String)
    requires
        has_name(node.view()),
    ensures
        line@ == entry_line(key@, node.view()),
{
    let mut line = "[".to_owned();
    line.append(code_to_string(key).as_str());
    line.append("] ");
    match node {
        SoundNode::Leaf(sounds) => {
            line.append(sounds[0].0.as_str());
            line.append(" (");
            line.append(decimal_string(sounds.len()).as_str());
            line.append(" variations)");
            assert(sounds_view(sounds@)[0].0 == sounds@[0].0@);
        },
        SoundNode::Branch((name, sub_map)) => {
            line.append(name.as_str());
            line.append(" (");
            line.append(decimal_string(sub_map.len()).as_str());
            line.append(" key binds)");
        },
    }
    line
}

/// Writes what is shown while the soundboard is off.
pub fn soundboard_inactive_text(toggle_code: &Key) -> (text: String)
    ensures
        text@ == inactive_text(toggle_code@),
{
    let mut text = "Soundboard is off.\nPress [".to_owned();
    text.append(toggle_code.name());
    text.append("] to toggle it back on.");
    text
}

/// `a` and `b` agree on their first `i` characters.
pub open spec fn agree_until(a: Seq<char>, b: Seq<char>, i: int) -> bool {
    &&& 0 <= i <= a.len()
    &&& i <= b.len()
    &&& forall|j: int| 0 <= j < i ==> a[j] == b[j]
}

/// `a` comes before `b` in the order of texts: at the first place where
/// they differ `a` has the lesser character, or `a` ends there and `b` goes on.
pub open spec fn text_lt(a: Seq<char>, b: Seq<char>) -> bool {
    exists|i: int| #[trigger]
        agree_until(a, b, i) && i < b.len() && (i == a.len() || a[i] < b[i])
}

/// Whether `a` comes before `b` in the order of texts.
pub fn str_lt(a: &str, b: &str) -> (before: bool)
    ensures
        before == text_lt(a@, b@),
{
    let a_len = a.unicode_len();
    let b_len = b.unicode_len();
    let mut i: usize = 0;
    while i < a_len && i < b_len
        invariant
            a_len == a@.len(),
            b_len == b@.len(),
            agree_until(a@, b@, i as int),
        decreases a_len - i,
    {
        let x = a.get_char(i);
        let y = b.get_char(i);
        if x != y {
            proof {
                lemma_first_difference(a@, b@, i as int);
            }
            return x < y;
        }
        i += 1;
    }
    proof {
        lemma_first_difference(a@, b@, i as int);
    }
    i < b_len
}

/// The first place where two texts differ, or where one of them ends, decides their order.
pub proof fn lemma_first_difference(a: Seq<char>, b: Seq<char>, i: int)
    requires
        agree_until(a, b, i),
        i == a.len() || i == b.len() || a[i] != b[i],
    ensures
        text_lt(a, b) == (i < b.len() && (i == a.len() || a[i] < b[i])),
{
    if text_lt(a, b) {
        let k = choose|k: int| #[trigger]
            agree_until(a, b, k) && k < b.len() && (k == a.len() || a[k] < b[k]);
        if k < i {
            assert(a[k] == b[k]);
        }
        if i < k {
            assert(a[i] == b[i]);
        }
    }
}

/// Lines with their labels, after the line of `label` was put in its place:
/// in the place of the line with the same label, or before the first line
/// whose label comes after it.
pub open spec fn sorted_put(
    lines: Seq<(Seq<char>, Seq<char>)>,
    label: Seq<char>,
    line: Seq<char>,
) -> Seq<(Seq<char>, Seq<char>)>
    decreases lines.len(),
{
    if lines.len() == 0 {
        seq![(label, line)]
    } else if lines[0].0 == label {
        lines.update(0, (label, line))
    } else if text_lt(label, lines[0].0) {
        seq![(label, line)] + lines
    } else {
        seq![lines[0]] + sorted_put(lines.skip(1), label, line)
    }
}

/// The lines of the first `n` entries of a menu with their labels, in the order of the labels.
pub open spec fn sorted_lines(menu: MenuView, n: int) -> Seq<(Seq<char>, Seq<char>)>
    decreases n,
{
    if n <= 0 || n > menu.len() {
        Seq::empty()
    } else {
        sorted_put(sorted_lines(menu, n - 1), key_label(menu[n - 1].0), entry_line(
            menu[n - 1].0,
            menu[n - 1].1,
        ))
    }
}

/// The lines of a menu as they are shown: one for each key, in the order of
/// the labels, and a last one that names the toggle key if there is one.
pub open spec fn menu_text(menu: MenuView, key_toggle: Option<Seq<char>>) -> Seq<Seq<char>> {
    let lines = sorted_lines(menu, menu.len() as int);
    let shown = Seq::new(lines.len(), |i: int| lines[i].1);
    match key_toggle {
        Some(key) => shown.push(toggle_off_line(key)),
        None => shown,
    }
}

/// The texts of labelled lines.
pub open spec fn labelled_view(lines: Seq<(String, String)>) -> Seq<(Seq<char>, Seq<char>)> {
    Seq::new(lines.len(), |i: int| (lines[i].0@, lines[i].1@))
}

/// The texts of lines.
pub open spec fn lines_view(lines: Seq<String>) -> Seq<Seq<char>> {
    Seq::new(lines.len(), |i: int| lines[i]@)
}

/// Putting a line into the lines after the first `i` puts it into all of
/// them, where none of the first `i` takes it.
proof fn lemma_put_after(
    lines: Seq<(Seq<char>, Seq<char>)>,
    label: Seq<char>,
    line: Seq<char>,
    i: int,
)
    requires
        0 <= i <= lines.len(),
        forall|j: int| 0 <= j < i ==> lines[j].0 != label && !text_lt(label, lines[j].0),
    ensures
        sorted_put(lines, label, line) == lines.take(i) + sorted_put(lines.skip(i), label, line),
    decreases i,
{
    if i == 0 {
        assert(lines.skip(0) =~= lines);
        assert(lines.take(0) + sorted_put(lines, label, line) =~= sorted_put(lines, label, line));
    } else {
        let rest = lines.skip(1);
        assert forall|j: int| 0 <= j < i - 1 implies rest[j].0 != label && !text_lt(
            label,
            rest[j].0,
        ) by {
            assert(rest[j] == lines[j + 1]);
        }
        lemma_put_after(rest, label, line, i - 1);
        assert(rest.skip(i - 1) =~= lines.skip(i));
        assert(seq![lines[0]] + (rest.take(i - 1) + sorted_put(lines.skip(i), label, line))
            =~= lines.take(i) + sorted_put(lines.skip(i), label, line));
    }
}

/// Puts a line with its label in its place among the labelled lines.
fn put_line(lines: &mut Vec<(String, String)>, label: String, line: String)
    ensures
        labelled_view(final(lines)@) == sorted_put(labelled_view(old(lines)@), label@, line@),
{
    let ghost before = labelled_view(lines@);
    let mut i: usize = 0;
    while i < lines.len()
        invariant
            i <= lines@.len(),
            lines@ == old(lines)@,
            before == labelled_view(lines@),
            forall|j: int| 0 <= j < i ==> before[j].0 != label@ && !text_lt(label@, before[j].0),
        ensures
            i == lines@.len() || before[i as int].0 == label@ || text_lt(
                label@,
                before[i as int].0,
            ),
        decreases lines@.len() - i,
    {
        let same = str_eq(lines[i].0.as_str(), label.as_str());
        if same || str_lt(label.as_str(), lines[i].0.as_str()) {
            break;
        }
        i += 1;
    }
    proof {
        lemma_put_after(before, label@, line@, i as int);
    }
    let ghost rest = before.skip(i as int);
    if i == lines.len() {
        lines.push((label, line));
        assert(labelled_view(lines@) =~= before.take(i as int) + seq![(label@, line@)]);
    } else if str_eq(lines[i].0.as_str(), label.as_str()) {
        lines.set(i, (label, line));
        assert(rest[0] == before[i as int]);
        assert(labelled_view(lines@) =~= before.take(i as int) + rest.update(0, (label@, line@)));
    } else {
        assert(rest[0] == before[i as int]);
        lines.insert(i, (label, line));
        assert(labelled_view(lines@) =~= before.take(i as int) + (seq![(label@, line@)] + rest));
    }
}

/// Writes the lines of a menu as they are shown.
pub fn nav_lines(map: &SoundMap, key_toggle: Option<&Key>) -> (lines: Vec<String>)
    requires
        all_named(map.view()),
    ensures
        lines_view(lines@) == menu_text(map.view(), opt_key_ref(key_toggle)),
{
    let ghost menu = map.view();
    let mut sorted: Vec<(String, String)> = Vec::new();
    let n = map.len();
    let mut i: usize = 0;
    assert(labelled_view(sorted@) =~= sorted_lines(menu, 0));
    while i < n
        invariant
            i <= n,
            n == menu.len(),
            menu == map.view(),
            all_named(menu),
            labelled_view(sorted@) == sorted_lines(menu, i as int),
        decreases n - i,
    {
        let key = map.key_at(i);
        let node = map.node_at(i);
        assert(has_name(menu[i as int].1));
        put_line(&mut sorted, code_to_string(key), entry_text(key, node));
        i += 1;
    }
    let mut lines: Vec<String> = Vec::new();
    let mut k: usize = 0;
    while k < sorted.len()
        invariant
            k <= sorted@.len(),
            lines@.len() == k,
            forall|j: int| 0 <= j < k ==> lines@[j]@ == sorted@[j].1@,
        decreases sorted@.len() - k,
    {
        lines.push(sorted[k].1.clone());
        k += 1;
    }
    let ghost shown = Seq::new(
        sorted_lines(menu, menu.len() as int).len(),
        |i: int| sorted_lines(menu, menu.len() as int)[i].1,
    );
    assert(lines_view(lines@) =~= shown) by {
        assert forall|j: int| 0 <= j < lines@.len() implies lines_view(lines@)[j] == shown[j] by {
            assert(labelled_view(sorted@)[j].1 == sorted@[j].1@);
        }
    }
    match key_toggle {
        Some(key) => {
            let mut line = "\nPress [".to_owned();
            line.append(key.name());
            line.append("] to toggle soundboard off.");
            lines.push(line);
            assert(lines_view(lines@) =~= shown.push(toggle_off_line(key@)));
        },
        None => {},
    }
    lines
}

/// The line that reports one file that is no sound; it ends in an empty line.
pub open spec fn bad_sound_line(bad: BadSoundView) -> Seq<char> {
    "Path: "@ + bad.path + "\nError: "@ + bad.error + "\n"@
}

/// What the operator is told of the files that are no sounds: how many
/// there are, each with its reason, and how to go on. Nothing, if there are none.
pub open spec fn bad_sounds_text(bad_sounds: Seq<BadSoundView>) -> Seq<Seq<char>> {
    if bad_sounds.len() == 0 {
        Seq::empty()
    } else {
        seq!["Found "@ + decimal(bad_sounds.len()) + " errors whilst loading sounds:\n"@] + Seq::new(
            bad_sounds.len(),
            |i: int| bad_sound_line(bad_sounds[i]),
        ) + seq!["Press Enter to continue, or CTRL + C to terminate"@]
    }
}

/// Writes what the operator is told of the files that are no sounds.
pub fn bad_sound_lines(bad_sounds: &Vec<BadSoundError>) -> (lines: Vec<String>)
    ensures
        lines_view(lines@) == bad_sounds_text(bad_sounds_view(bad_sounds@)),
{
    let mut lines: Vec<String> = Vec::new();
    if bad_sounds.len() == 0 {
        assert(lines_view(lines@) =~= Seq::empty());
        return lines;
    }
    let ghost bad = bad_sounds_view(bad_sounds@);
    let ghost reports = Seq::new(bad.len(), |i: int| bad_sound_line(bad[i]));
    let mut head = "Found ".to_owned();
    head.append(decimal_string(bad_sounds.len()).as_str());
    head.append(" errors whilst loading sounds:\n");
    let ghost first = seq![head@];
    lines.push(head);
    let mut i: usize = 0;
    assert(lines_view(lines@) =~= first + reports.take(0));
    while i < bad_sounds.len()
        invariant
            i <= bad_sounds@.len(),
            bad == bad_sounds_view(bad_sounds@),
            reports == Seq::new(bad.len(), |i: int| bad_sound_line(bad[i])),
            lines_view(lines@) == first + reports.take(i as int),
        decreases bad_sounds@.len() - i,
    {
        let mut line = "Path: ".to_owned();
        line.append(bad_sounds[i].path.as_str());
        line.append("\nError: ");
        line.append(bad_sounds[i].error.as_str());
        line.append("\n");
        assert(line@ == reports[i as int]);
        let ghost so_far = lines_view(lines@);
        lines.push(line);
        assert(lines_view(lines@) =~= so_far.push(reports[i as int]));
        assert(so_far.push(reports[i as int]) =~= first + reports.take(i + 1));
        i += 1;
    }
    assert(reports.take(bad.len() as int) =~= reports);
    let ghost so_far = lines_view(lines@);
    lines.push("Press Enter to continue, or CTRL + C to terminate".to_owned());
    assert(lines_view(lines@) =~= so_far.push(
        "Press Enter to continue, or CTRL + C to terminate"@,
    ));
    assert(lines_view(lines@) =~= bad_sounds_text(bad));
    lines
}

/// The first place from `i` on where two texts differ or one of them ends.
pub open spec fn difference_from(a: Seq<char>, b: Seq<char>, i: int) -> int
    decreases a.len() - i,
{
    if i < 0 || i >= a.len() || i >= b.len() || a[i] != b[i] {
        i
    } else {
        difference_from(a, b, i + 1)
    }
}

/// Two texts that agree up to `i` agree up to their first difference from
/// `i` on, and differ or end there.
pub proof fn lemma_difference(a: Seq<char>, b: Seq<char>, i: int)
    requires
        agree_until(a, b, i),
    ensures
        ({
            let d = difference_from(a, b, i);
            agree_until(a, b, d) && (d == a.len() || d == b.len() || a[d] != b[d])
        }),
    decreases a.len() - i,
{
    if i < a.len() && i < b.len() && a[i] == b[i] {
        assert(agree_until(a, b, i + 1));
        lemma_difference(a, b, i + 1);
    }
}

/// Of two different texts one comes before the other, and no text comes before itself.
pub proof fn lemma_text_order_total(a: Seq<char>, b: Seq<char>)
    ensures
        a != b ==> text_lt(a, b) || text_lt(b, a),
        !(text_lt(a, b) && text_lt(b, a)),
        !text_lt(a, a),
{
    assert(agree_until(a, b, 0));
    lemma_difference(a, b, 0);
    let d = difference_from(a, b, 0);
    lemma_first_difference(a, b, d);
    assert(agree_until(b, a, d));
    lemma_first_difference(b, a, d);
    if d == a.len() && d == b.len() {
        assert(a =~= b);
    }
    assert(agree_until(a, a, a.len() as int));
    lemma_first_difference(a, a, a.len() as int);
}

/// What comes before a text comes before all that the text comes before.
pub proof fn lemma_text_order_transitive(a: Seq<char>, b: Seq<char>, c: Seq<char>)
    requires
        text_lt(a, b),
        text_lt(b, c),
    ensures
        text_lt(a, c),
{
    let i = choose|i: int| #[trigger]
        agree_until(a, b, i) && i < b.len() && (i == a.len() || a[i] < b[i]);
    let j = choose|j: int| #[trigger]
        agree_until(b, c, j) && j < c.len() && (j == b.len() || b[j] < c[j]);
    let k = if i <= j {
        i
    } else {
        j
    };
    assert(agree_until(a, c, k)) by {
        assert forall|x: int| 0 <= x < k implies a[x] == c[x] by {
            assert(a[x] == b[x]);
            assert(b[x] == c[x]);
        }
    }
    if i < j {
        if i < a.len() {
            assert(b[i] == c[i]);
        }
    } else if j < i {
        assert(a[j] == b[j]);
    }
    assert(agree_until(a, c, k) && k < c.len() && (k == a.len() || a[k] < c[k]));
}

/// The labels of the lines stand in rising order.
pub open spec fn rising(lines: Seq<(Seq<char>, Seq<char>)>) -> bool {
    forall|i: int, j: int|
        0 <= i < j < lines.len() ==> text_lt((#[trigger] lines[i]).0, (#[trigger] lines[j]).0)
}

/// Putting a line in its place keeps the labels in rising order, and adds
/// no label but its own.
pub proof fn lemma_put_rising(lines: Seq<(Seq<char>, Seq<char>)>, label: Seq<char>, line: Seq<char>)
    requires
        rising(lines),
    ensures
        rising(sorted_put(lines, label, line)),
        forall|i: int|
            0 <= i < sorted_put(lines, label, line).len() ==> (#[trigger] sorted_put(
                lines,
                label,
                line,
            )[i]).0 == label || exists|j: int|
                0 <= j < lines.len() && (#[trigger] lines[j]).0 == sorted_put(lines, label, line)[i].0,
    decreases lines.len(),
{
    let after = sorted_put(lines, label, line);
    if lines.len() == 0 {
    } else if lines[0].0 == label {
        assert forall|i: int, j: int| 0 <= i < j < after.len() implies text_lt(
            (#[trigger] after[i]).0,
            (#[trigger] after[j]).0,
        ) by {
            assert(after[i].0 == lines[i].0);
            assert(after[j].0 == lines[j].0);
        }
        assert forall|i: int| 0 <= i < after.len() implies (#[trigger] after[i]).0 == label
            || exists|j: int| 0 <= j < lines.len() && (#[trigger] lines[j]).0 == after[i].0 by {
            assert(lines[i].0 == after[i].0);
        }
    } else if text_lt(label, lines[0].0) {
        assert forall|i: int, j: int| 0 <= i < j < after.len() implies text_lt(
            (#[trigger] after[i]).0,
            (#[trigger] after[j]).0,
        ) by {
            assert(after[j] == lines[j - 1]);
            if i == 0 {
                if j > 1 {
                    assert(text_lt(lines[0].0, lines[j - 1].0));
                    lemma_text_order_transitive(label, lines[0].0, lines[j - 1].0);
                }
            } else {
                assert(after[i] == lines[i - 1]);
                assert(text_lt(lines[i - 1].0, lines[j - 1].0));
            }
        }
        assert forall|i: int| 0 <= i < after.len() implies (#[trigger] after[i]).0 == label
            || exists|j: int| 0 <= j < lines.len() && (#[trigger] lines[j]).0 == after[i].0 by {
            if i > 0 {
                assert(lines[i - 1].0 == after[i].0);
            }
        }
    } else {
        let rest = lines.skip(1);
        let put = sorted_put(rest, label, line);
        assert(rising(rest)) by {
            assert forall|i: int, j: int| 0 <= i < j < rest.len() implies text_lt(
                (#[trigger] rest[i]).0,
                (#[trigger] rest[j]).0,
            ) by {
                assert(text_lt(lines[i + 1].0, lines[j + 1].0));
            }
        }
        lemma_put_rising(rest, label, line);
        lemma_text_order_total(label, lines[0].0);
        assert(text_lt(lines[0].0, label));
        assert forall|i: int, j: int| 0 <= i < j < after.len() implies text_lt(
            (#[trigger] after[i]).0,
            (#[trigger] after[j]).0,
        ) by {
            assert(after[j] == put[j - 1]);
            if i == 0 {
                if put[j - 1].0 != label {
                    let x = choose|x: int|
                        0 <= x < rest.len() && (#[trigger] rest[x]).0 == put[j - 1].0;
                    assert(rest[x] == lines[x + 1]);
                    assert(text_lt(lines[0].0, lines[x + 1].0));
                }
            } else {
                assert(after[i] == put[i - 1]);
                assert(text_lt(put[i - 1].0, put[j - 1].0));
            }
        }
        assert forall|i: int| 0 <= i < after.len() implies (#[trigger] after[i]).0 == label
            || exists|j: int| 0 <= j < lines.len() && (#[trigger] lines[j]).0 == after[i].0 by {
            if i == 0 {
                assert(lines[0].0 == after[0].0);
            } else {
                assert(after[i] == put[i - 1]);
                if put[i - 1].0 != label {
                    let x = choose|x: int|
                        0 <= x < rest.len() && (#[trigger] rest[x]).0 == put[i - 1].0;
                    assert(lines[x + 1].0 == after[i].0);
                }
            }
        }
    }
}

/// The lines of a menu stand in the rising order of their labels.
pub proof fn lemma_lines_rising(menu: MenuView, n: int)
    ensures
        rising(sorted_lines(menu, n)),
    decreases n,
{
    if 0 < n <= menu.len() {
        lemma_lines_rising(menu, n - 1);
        lemma_put_rising(
            sorted_lines(menu, n - 1),
            key_label(menu[n - 1].0),
            entry_line(menu[n - 1].0, menu[n - 1].1),
        );
    }
}

} // verus!
