//! What keys do in the popups: the permissions, a new entry, and the path picker.

use vstd::prelude::*;

use crate::display::outline::lemma_order_picks_all;
use crate::figures::bit_set;
use crate::keys::KeyCode;
use crate::order::{precedes, stable_order, stable_order_sorts, text_le};
use crate::paths::{file_name_of, joined, parent_of, same_components};
use crate::text::{has_prefix, lowercase_text};
use crate::tui::commands::{after, asked, pressed, typed};
use crate::tui::newitem::{mode_of, Focus, NewItemView};
use crate::tui::perms::{bit_on, cell_bit, mode_text, PermsView};
use crate::tui::picker::{entry_names, upto_slash, with_slash, without_component};
use crate::tui::spotlight::{
    by_name, common_prefix, common_prefix_is_longest, expanded, folded, listing_keys,
    listing_order, offered, offers_match, share_start, shared_by_all, split_typed, ReqView,
    SpotlightEntry, SpotlightView, MAX_OFFERED,
};
use crate::tui::{AppView, EffectView, Env, Screen};

verus! {

// ---------------------------------------------------------------------------
// Permissions
// ---------------------------------------------------------------------------

/// Whether keys go to the permissions.
pub open spec fn perms_take_keys(a: AppView) -> bool {
    &&& a.editor is None
    &&& a.new_item is None
    &&& a.perms is Some
    &&& a.perms->0.cursor < 15
}

/// Which bit of the permissions a cell stands for, counted from the lowest: the owner's
/// three, the group's three, those of all others, and the three special ones.
pub open spec fn bit_number(cell: nat) -> u32
    recommends
        cell < 12,
{
    if cell < 9 {
        (8 - cell) as u32
    } else {
        (20 - cell) as u32
    }
}

proof fn lemma_bit(mode: u32, bit: u32, i: u32)
    requires
        i < 32,
        bit == 1u32 << i,
    ensures
        mode & bit != 0 <==> bit_set(mode, i),
        bit_set(mode ^ bit, i) <==> !bit_set(mode, i),
        forall|j: u32| j < 32 && j != i ==> (bit_set(mode ^ bit, j) <==> #[trigger] bit_set(
            mode,
            j,
        )),
{
    assert((mode & bit != 0) == ((mode >> i) & 1 == 1)) by (bit_vector)
        requires
            i < 32,
            bit == 1u32 << i,
    ;
    assert((((mode ^ bit) >> i) & 1 == 1) == !((mode >> i) & 1 == 1)) by (bit_vector)
        requires
            i < 32,
            bit == 1u32 << i,
    ;
    assert forall|j: u32| j < 32 && j != i implies (bit_set(mode ^ bit, j) <==> #[trigger] bit_set(
        mode,
        j,
    )) by {
        assert((((mode ^ bit) >> j) & 1 == 1) == ((mode >> j) & 1 == 1)) by (bit_vector)
            requires
                i < 32,
                j < 32,
                j != i,
                bit == 1u32 << i,
        ;
    }
}

proof fn lemma_powers_of_bits()
    ensures
        1u32 << 0u32 == 1,
        1u32 << 1u32 == 2,
        1u32 << 2u32 == 4,
        1u32 << 3u32 == 8,
        1u32 << 4u32 == 16,
        1u32 << 5u32 == 32,
        1u32 << 6u32 == 64,
        1u32 << 7u32 == 128,
        1u32 << 8u32 == 256,
        1u32 << 9u32 == 512,
        1u32 << 10u32 == 1024,
        1u32 << 11u32 == 2048,
{
    assert(1u32 << 0u32 == 1 && 1u32 << 1u32 == 2 && 1u32 << 2u32 == 4 && 1u32 << 3u32 == 8 && 1u32
        << 4u32 == 16 && 1u32 << 5u32 == 32 && 1u32 << 6u32 == 64 && 1u32 << 7u32 == 128 && 1u32
        << 8u32 == 256 && 1u32 << 9u32 == 512 && 1u32 << 10u32 == 1024 && 1u32 << 11u32 == 2048)
        by (bit_vector);
}

/// Entering a cell of the permissions switches the bit that it stands for over, and no
/// other, and changes nothing else.
pub proof fn cells_switch_their_bits(a: AppView, code: KeyCode, env: Env)
    requires
        perms_take_keys(a),
        !a.perms->0.confirm_recursive,
        a.perms->0.cursor < 12,
        code == KeyCode::Enter || code == KeyCode::Char(' '),
    ensures
        ({
            let p = a.perms->0;
            let b = after(a, pressed(code), env);
            let q = b.perms->0;
            &&& asked(a, pressed(code), env) is Nothing
            &&& b.perms is Some
            &&& b == (AppView { perms: b.perms, ..a })
            &&& q == (PermsView { mode: q.mode, ..p })
            &&& forall|i: u32|
                i < 32 ==> (#[trigger] bit_set(p.mode, i) != bit_set(q.mode, i) <==> i
                    == bit_number(p.cursor))
        }),
{
    let p = a.perms->0;
    lemma_powers_of_bits();
    let i = bit_number(p.cursor);
    assert(cell_bit(p.cursor) == 1u32 << i);
    lemma_bit(p.mode, cell_bit(p.cursor), i);
}

/// The arrows move the cursor by one cell in a grid of three columns and five rows, but
/// not out of it.
pub proof fn arrows_move_in_the_grid(a: AppView, code: KeyCode, env: Env)
    requires
        perms_take_keys(a),
        !a.perms->0.confirm_recursive,
        code == KeyCode::Left || code == KeyCode::Right || code == KeyCode::Up || code
            == KeyCode::Down,
    ensures
        ({
            let p = a.perms->0;
            let b = after(a, pressed(code), env);
            let q = b.perms->0;
            let (x, y) = (p.cursor % 3, p.cursor / 3);
            &&& asked(a, pressed(code), env) is Nothing
            &&& b.perms is Some
            &&& b == (AppView { perms: b.perms, ..a })
            &&& q == (PermsView { cursor: q.cursor, ..p })
            &&& q.cursor == (match code {
                KeyCode::Left => if x > 0 {
                    p.cursor - 1
                } else {
                    p.cursor as int
                },
                KeyCode::Right => if x < 2 {
                    p.cursor as int + 1
                } else {
                    p.cursor as int
                },
                KeyCode::Up => if y > 0 {
                    p.cursor - 3
                } else {
                    p.cursor as int
                },
                _ => if y < 4 {
                    p.cursor as int + 3
                } else {
                    p.cursor as int
                },
            })
        }),
{
}

/// The buttons apply the permissions to the entry, ask whether to apply them to all below
/// it, and close. Only root applies anything.
pub proof fn buttons_do_what_they_say(a: AppView, code: KeyCode, env: Env)
    requires
        perms_take_keys(a),
        !a.perms->0.confirm_recursive,
        a.perms->0.cursor >= 12,
        code == KeyCode::Enter || code == KeyCode::Char(' '),
    ensures
        ({
            let p = a.perms->0;
            let (b, e) = a.key_step(pressed(code), env);
            &&& p.cursor == 12 && env.root ==> b == a && e == (EffectView::ApplyPerms {
                path: p.path,
                mode: p.mode,
            })
            &&& p.cursor == 12 && !env.root ==> e is Nothing && b == (AppView {
                status_msg: Some(("apply requires sudo/root"@, env.now)),
                ..a
            })
            &&& p.cursor == 13 ==> e is Nothing && b == (AppView {
                perms: Some(PermsView { confirm_recursive: true, confirm_cursor: 1, ..p }),
                ..a
            })
            &&& p.cursor == 14 ==> e is Nothing && b == (AppView {
                perms: None,
                screen: Screen::Main,
                ..a
            })
        }),
{
}

/// The question is answered by the button that is selected: yes applies to all below the
/// entry, no does nothing, and either way the question is over.
pub proof fn the_question_is_answered(a: AppView, code: KeyCode, env: Env)
    requires
        perms_take_keys(a),
        a.perms->0.confirm_recursive,
        code == KeyCode::Enter || code == KeyCode::Char(' '),
    ensures
        ({
            let p = a.perms->0;
            let (b, e) = a.key_step(pressed(code), env);
            let over = AppView { perms: Some(PermsView { confirm_recursive: false, ..p }), ..a };
            &&& p.confirm_cursor != 0 ==> e is Nothing && b == over
            &&& p.confirm_cursor == 0 && env.root ==> b == over && e == (
            EffectView::ApplyPermsRecursive { path: p.path, mode: p.mode })
            &&& p.confirm_cursor == 0 && !env.root ==> e is Nothing && b == (AppView {
                status_msg: Some(("recursive apply requires sudo/root"@, env.now)),
                ..over
            })
        }),
{
}

/// Permissions are written with one letter for each bit that is set, in their places, and
/// a dash for each that is not; a special bit changes the letter of the third place.
pub proof fn letters_say_the_bits(mode: u32, is_dir: bool)
    ensures
        ({
            let s = mode_text(mode, is_dir);
            &&& s.len() == 10
            &&& s[0] == (if is_dir {
                'd'
            } else {
                '-'
            })
            &&& forall|who: int| 0 <= who < 3 ==> {
                let (r, w) = ((8 - 3 * who) as u32, (7 - 3 * who) as u32);
                &&& #[trigger] s[1 + 3 * who] == (if bit_set(mode, r) {
                    'r'
                } else {
                    '-'
                })
                &&& s[2 + 3 * who] == (if bit_set(mode, w) {
                    'w'
                } else {
                    '-'
                })
                &&& s[3 + 3 * who] == (match (
                    bit_set(mode, (6 - 3 * who) as u32),
                    bit_set(mode, (11 - who) as u32),
                ) {
                    (false, false) => '-',
                    (true, false) => 'x',
                    (true, true) => if who == 2 {
                        't'
                    } else {
                        's'
                    },
                    (false, true) => if who == 2 {
                        'T'
                    } else {
                        'S'
                    },
                })
            }
        }),
{
    lemma_powers_of_bits();
    lemma_bit(mode, 0o400, 8);
    lemma_bit(mode, 0o200, 7);
    lemma_bit(mode, 0o100, 6);
    lemma_bit(mode, 0o040, 5);
    lemma_bit(mode, 0o020, 4);
    lemma_bit(mode, 0o010, 3);
    lemma_bit(mode, 0o004, 2);
    lemma_bit(mode, 0o002, 1);
    lemma_bit(mode, 0o001, 0);
    lemma_bit(mode, 0o4000, 11);
    lemma_bit(mode, 0o2000, 10);
    lemma_bit(mode, 0o1000, 9);
    let s = mode_text(mode, is_dir);
    assert forall|who: int| 0 <= who < 3 implies {
        let (r, w) = ((8 - 3 * who) as u32, (7 - 3 * who) as u32);
        &&& #[trigger] s[1 + 3 * who] == (if bit_set(mode, r) {
            'r'
        } else {
            '-'
        })
        &&& s[2 + 3 * who] == (if bit_set(mode, w) {
            'w'
        } else {
            '-'
        })
        &&& s[3 + 3 * who] == (match (
            bit_set(mode, (6 - 3 * who) as u32),
            bit_set(mode, (11 - who) as u32),
        ) {
            (false, false) => '-',
            (true, false) => 'x',
            (true, true) => if who == 2 {
                't'
            } else {
                's'
            },
            (false, true) => if who == 2 {
                'T'
            } else {
                'S'
            },
        })
    } by {
        if who == 0 {
            assert(bit_on(mode, 0o400) == bit_set(mode, 8));
        } else if who == 1 {
            assert(bit_on(mode, 0o040) == bit_set(mode, 5));
        } else {
            assert(who == 2);
            assert(bit_on(mode, 0o004) == bit_set(mode, 2));
        }
    }
}

// ---------------------------------------------------------------------------
// A new entry
// ---------------------------------------------------------------------------

/// Whether keys go to the popup for a new entry.
pub open spec fn item_takes_keys(a: AppView) -> bool {
    &&& a.editor is None
    &&& a.new_item is Some
}

/// A character that is typed goes to the end of the field that has the focus; the other
/// field stays as it is.
pub proof fn typing_fills_the_field(a: AppView, c: char, env: Env)
    requires
        item_takes_keys(a),
    ensures
        ({
            let n = a.new_item->0;
            let (b, e) = a.key_step(typed(c), env);
            &&& e is Nothing
            &&& b == (AppView { new_item: b.new_item, ..a })
            &&& b.new_item == Some(match n.focus {
                Focus::Name => NewItemView { name: n.name + seq![c], error: None, ..n },
                Focus::Mode => NewItemView { mode: n.mode + seq![c], error: None, ..n },
                _ => n,
            })
        }),
{
    reveal(AppView::item_step);
    let n = a.new_item->0;
    assert(n.name.push(c) =~= n.name + seq![c]);
    assert(n.mode.push(c) =~= n.mode + seq![c]);
}

/// Where the name and the permissions are in order, enter asks for just that entry, in the
/// directory that was shown; where they are not, nothing is asked for, and the popup stays.
pub proof fn enter_makes_what_was_typed(a: AppView, env: Env)
    requires
        item_takes_keys(a),
        a.new_item->0.focus != Focus::Cancel,
    ensures
        ({
            let n = a.new_item->0;
            let (b, e) = a.key_step(pressed(KeyCode::Enter), env);
            let fits = n.name.len() > 0 && !n.name.contains('/') && mode_of(n.mode) is Some;
            &&& fits ==> b == a && e is CreateItem && e->CreateItem_path == joined(
                n.parent,
                n.name,
            ) && e->CreateItem_is_dir == n.is_dir && e->CreateItem_mode == mode_of(n.mode)->0
            &&& !fits ==> e is Nothing && b.new_item is Some && b.new_item->0.error is Some && b
                == (AppView {
                new_item: Some(NewItemView { error: b.new_item->0.error, ..n }),
                ..a
            })
        }),
{
    reveal(AppView::item_step);
    crate::tui::newitem::modes_are_permissions(a.new_item->0.mode);
}

/// Escape closes the popup, as enter does on its cancel button; nothing is asked for.
pub proof fn cancelling_makes_nothing(a: AppView, code: KeyCode, env: Env)
    requires
        item_takes_keys(a),
        code == KeyCode::Esc || (code == KeyCode::Enter && a.new_item->0.focus == Focus::Cancel),
    ensures
        a.key_step(pressed(code), env) == (
            AppView { new_item: None, screen: Screen::Main, ..a },
            EffectView::Nothing,
        ),
{
    reveal(AppView::item_step);
}

/// Tab goes from the name to the permissions, to the two buttons, and round again; shift
/// and tab goes back.
pub proof fn tab_goes_round(a: AppView, env: Env)
    requires
        item_takes_keys(a),
    ensures
        ({
            let f = |x: AppView| x.new_item->0.focus;
            let b = after(a, pressed(KeyCode::Tab), env);
            &&& b == (AppView {
                new_item: Some(NewItemView { focus: f(b), ..a.new_item->0 }),
                ..a
            })
            &&& f(a) == Focus::Name ==> f(b) == Focus::Mode
            &&& f(a) == Focus::Mode ==> f(b) == Focus::Create
            &&& f(a) == Focus::Create ==> f(b) == Focus::Cancel
            &&& f(a) == Focus::Cancel ==> f(b) == Focus::Name
            &&& after(b, pressed(KeyCode::BackTab), env) == a
        }),
{
    reveal(AppView::item_step);
}

// ---------------------------------------------------------------------------
// The path picker
// ---------------------------------------------------------------------------

/// Whether keys go to the picker.
pub open spec fn picker_takes_keys(a: AppView) -> bool {
    &&& a.editor is None
    &&& a.new_item is None
    &&& a.perms is None
    &&& a.spotlight is Some
}

/// Enter goes to the entry that is selected, keeping the way back; where nothing is
/// offered, it asks whether the path that was typed can be gone to.
pub proof fn enter_goes_to_the_selected_entry(a: AppView, env: Env)
    requires
        picker_takes_keys(a),
    ensures
        ({
            let s = a.spotlight->0;
            let (b, e) = a.key_step(pressed(KeyCode::Enter), env);
            if s.selected < s.candidates.len() {
                &&& e == (EffectView::Rescan { path: s.candidates[s.selected as int].path@ })
                &&& b == (AppView {
                    spotlight: None,
                    nav_stack: a.nav_stack.push(a.root.path@),
                    ..a
                })
            } else {
                &&& e == (EffectView::GoToTyped { path: expanded(s.input, env.home_text()) })
                &&& b == a
            }
        }),
{
}

/// Escape closes the picker; the arrows select the next entry and the one before, as far
/// as there is one.
pub proof fn arrows_select_entries(a: AppView, env: Env)
    requires
        picker_takes_keys(a),
    ensures
        a.key_step(pressed(KeyCode::Esc), env) == (
            AppView { spotlight: None, ..a },
            EffectView::Nothing,
        ),
        ({
            let s = a.spotlight->0;
            let (b, e) = a.key_step(pressed(KeyCode::Down), env);
            &&& e is Nothing
            &&& b == (AppView {
                spotlight: Some(SpotlightView { selected: b.spotlight->0.selected, ..s }),
                ..a
            })
            &&& b.spotlight->0.selected == (if s.selected + 1 < s.candidates.len() {
                s.selected + 1
            } else {
                s.selected
            })
        }),
        ({
            let s = a.spotlight->0;
            let (b, e) = a.key_step(pressed(KeyCode::Up), env);
            &&& e is Nothing
            &&& b == (AppView {
                spotlight: Some(SpotlightView { selected: b.spotlight->0.selected, ..s }),
                ..a
            })
            &&& b.spotlight->0.selected == (if s.selected > 0 {
                s.selected - 1
            } else {
                0
            })
        }),
{
}

/// A character that is typed goes to the end of the path; a slash has the directory that
/// was typed read at once.
pub proof fn typing_lengthens_the_path(a: AppView, c: char, env: Env)
    requires
        picker_takes_keys(a),
    ensures
        ({
            let s = a.spotlight->0;
            let (b, e) = a.key_step(typed(c), env);
            &&& b == (AppView { spotlight: b.spotlight, ..a })
            &&& b.spotlight is Some
            &&& b.spotlight->0.input == s.input + seq![c]
            &&& c == '/' ==> e is Query && (e->Query_0.parent, e->Query_0.partial) == split_typed(
                s.input + seq![c],
                env.home_text(),
            )
            &&& c != '/' ==> e is Nothing && b.spotlight->0.pending && b.spotlight->0.changed_at
                == env.now && b.spotlight->0.selected == 0
        }),
{
    let s = a.spotlight->0;
    assert(s.input.push(c) =~= s.input + seq![c]);
}

/// A path that ends in a slash names the directory to be read, and any name in it is
/// offered.
pub proof fn a_slash_ends_the_directory(input: Seq<char>, home: Option<Seq<char>>)
    requires
        input.len() > 1,
        input.last() == '/',
        input[input.len() - 2] != '/',
        input[0] != '~',
    ensures
        split_typed(input, home) == (input.drop_last(), Seq::<char>::empty()),
{
    if home is Some {
        tilde_is_home(input, home->0);
    }
    let t = input.drop_last();
    assert(t.last() != '/');
    assert(crate::text::without_trailing(t, '/') == t);
    assert(crate::text::without_trailing(input, '/') == t);
}

/// A path that does not end in a slash is split before its last name: that is the start
/// of the names to be offered, and what is before it is the directory to be read.
pub proof fn typed_names_are_split_off(input: Seq<char>, home: Option<Seq<char>>)
    requires
        input.len() > 0,
        input.last() != '/',
        input[0] != '~',
    ensures
        ({
            let (dir, partial) = split_typed(input, home);
            &&& file_name_of(input) matches Some(n) ==> partial == n
            &&& parent_of(input) matches Some(d) ==> d.len() > 0 ==> dir == d
            &&& parent_of(input) is None ==> dir == seq!['/']
        }),
{
    reveal_strlit("/");
    assert("/"@ =~= seq!['/']);
    if home is Some {
        tilde_is_home(input, home->0);
    }
}

/// What was typed stands for itself, but for a tilde at its start, which is the home
/// directory.
pub proof fn tilde_is_home(input: Seq<char>, home: Seq<char>)
    ensures
        input.len() == 0 || input[0] != '~' ==> expanded(input, Some(home)) == input,
        input == seq!['~'] ==> expanded(input, Some(home)) == home,
        input.len() >= 2 && input[0] == '~' && input[1] == '/' ==> expanded(input, Some(home))
            == joined(home, input.skip(2)),
        input.len() >= 2 && input[0] == '~' && input[1] != '/' ==> expanded(input, Some(home))
            == input,
        expanded(input, None) == input,
{
    reveal_strlit("~/");
    reveal_strlit("~");
    assert("~"@ =~= seq!['~']);
    assert("~/"@ =~= seq!['~', '/']);
    if input.len() >= 2 {
        assert(input.take(2) =~= seq![input[0], input[1]]);
        assert(seq![input[0], input[1]][1] == input[1]);
        assert(seq!['~', '/'][1] == '/');
        if input == "~"@ {
            assert(input.len() == 1);
        }
    }
}

/// Every entry whose name starts with what was typed is offered, unless they are too many,
/// and no other is.
pub proof fn matching_entries_are_offered(
    entries: Seq<SpotlightEntry>,
    partial: Seq<char>,
    e: SpotlightEntry,
)
    ensures
        offered(entries, partial).contains(e) ==> entries.contains(e) && has_prefix(
            lowercase_text(e.name@),
            lowercase_text(partial),
        ),
        entries.len() <= MAX_OFFERED && entries.contains(e) && has_prefix(
            lowercase_text(e.name@),
            lowercase_text(partial),
        ) ==> offered(entries, partial).contains(e),
{
    let pred = |e: SpotlightEntry| has_prefix(lowercase_text(e.name@), lowercase_text(partial));
    if entries.contains(e) && pred(e) {
        let i = choose|i: int| 0 <= i < entries.len() && entries[i] == e;
        entries.lemma_filter_contains(pred, i);
    }
    crate::lists::lemma_filter_passes(entries, pred);
    offers_match(entries, partial);
    let hits = entries.filter(pred);
    let o = offered(entries, partial);
    if o.contains(e) {
        let i = choose|i: int| 0 <= i < o.len() && o[i] == e;
        assert(hits[i] == e);
    }
}

/// A listing has the directories before the files, each in the order of their names, and
/// holds all entries that were found and no other.
pub proof fn listings_have_directories_first(s: Seq<SpotlightEntry>)
    ensures
        ({
            let l = listing_order(s);
            &&& l.to_multiset() == s.to_multiset()
            &&& forall|i: int, j: int|
                0 <= i < j < l.len() ==> {
                    &&& (#[trigger] l[j]).is_dir ==> (#[trigger] l[i]).is_dir
                    &&& l[i].is_dir == l[j].is_dir ==> text_le(
                        lowercase_text(l[i].name@),
                        lowercase_text(l[j].name@),
                    )
                }
        }),
{
    let d = s.filter(|e: SpotlightEntry| e.is_dir);
    let f = s.filter(|e: SpotlightEntry| !e.is_dir);
    assert((|e: SpotlightEntry| e.is_dir) =~= (|e: SpotlightEntry| e.is_dir == true));
    assert((|e: SpotlightEntry| !e.is_dir) =~= (|e: SpotlightEntry| e.is_dir == false));
    lemma_by_name(d, true, s);
    lemma_by_name(f, false, s);
    lemma_kinds(s);
    vstd::seq_lib::lemma_multiset_commutative(by_name(d), by_name(f));
    vstd::seq_lib::lemma_multiset_commutative(d, f);
    let l = listing_order(s);
    let n = by_name(d).len();
    assert forall|i: int, j: int| 0 <= i < j < l.len() implies {
        &&& (#[trigger] l[j]).is_dir ==> (#[trigger] l[i]).is_dir
        &&& l[i].is_dir == l[j].is_dir ==> text_le(
            lowercase_text(l[i].name@),
            lowercase_text(l[j].name@),
        )
    } by {
        if j < n {
            assert(l[i] == by_name(d)[i] && l[j] == by_name(d)[j]);
        } else if i < n {
            assert(l[i] == by_name(d)[i] && l[j] == by_name(f)[j - n]);
        } else {
            assert(l[i] == by_name(f)[i - n] && l[j] == by_name(f)[j - n]);
        }
    }
}

proof fn lemma_by_name(d: Seq<SpotlightEntry>, dirs: bool, s: Seq<SpotlightEntry>)
    requires
        d == s.filter(|e: SpotlightEntry| e.is_dir == dirs),
    ensures
        by_name(d).to_multiset() == d.to_multiset(),
        by_name(d).len() == d.len(),
        forall|i: int| 0 <= i < by_name(d).len() ==> (#[trigger] by_name(d)[i]).is_dir == dirs,
        forall|i: int, j: int|
            0 <= i < j < by_name(d).len() ==> text_le(
                lowercase_text((#[trigger] by_name(d)[i]).name@),
                lowercase_text((#[trigger] by_name(d)[j]).name@),
            ),
{
    let keys = listing_keys(d);
    let p = stable_order(keys, false);
    stable_order_sorts(keys, false);
    lemma_order_picks_all(d, keys, false);
    crate::lists::lemma_filter_passes(s, |e: SpotlightEntry| e.is_dir == dirs);
    let o = by_name(d);
    assert forall|i: int| 0 <= i < o.len() implies (#[trigger] o[i]).is_dir == dirs by {
        assert(o[i] == d[p[i]]);
    }
    assert forall|i: int, j: int| 0 <= i < j < o.len() implies text_le(
        lowercase_text((#[trigger] o[i]).name@),
        lowercase_text((#[trigger] o[j]).name@),
    ) by {
        assert(precedes(keys, false, p[i], p[j]));
        assert(o[i] == d[p[i]] && o[j] == d[p[j]]);
        assert(keys[p[i]] == crate::order::KeyView::Name(lowercase_text(d[p[i]].name@)));
        assert(keys[p[j]] == crate::order::KeyView::Name(lowercase_text(d[p[j]].name@)));
    }
}

proof fn lemma_kinds(s: Seq<SpotlightEntry>)
    ensures
        s.filter(|e: SpotlightEntry| e.is_dir).to_multiset().add(
            s.filter(|e: SpotlightEntry| !e.is_dir).to_multiset(),
        ) == s.to_multiset(),
    decreases s.len(),
{
    broadcast use vstd::seq_lib::group_to_multiset_ensures;

    let p = |e: SpotlightEntry| e.is_dir;
    let q = |e: SpotlightEntry| !e.is_dir;
    reveal(Seq::filter);
    if s.len() > 0 {
        let d = s.drop_last();
        let x = s.last();
        lemma_kinds(d);
        assert(s =~= d.push(x));
        assert(s.filter(p).to_multiset().add(s.filter(q).to_multiset()) =~= s.to_multiset());
    } else {
        assert(s.filter(p).to_multiset().add(s.filter(q).to_multiset()) =~= s.to_multiset());
    }
}

/// Taking the last part of a path back leaves its start, up to the slash before that part;
/// the root where there is none.
pub proof fn the_last_part_is_taken_back(s: Seq<char>)
    requires
        s.len() > 0,
    ensures
        ({
            let k = without_component(s);
            if exists|i: int| 0 <= i < s.len() - 1 && s[i] == '/' {
                &&& k.is_prefix_of(s)
                &&& 0 < k.len() < s.len()
                &&& k.last() == '/'
                &&& forall|i: int| k.len() <= i < s.len() - 1 ==> s[i] != '/'
            } else {
                k == seq!['/']
            }
        }),
{
    reveal_strlit("/");
    assert("/"@ =~= seq!['/']);
    let t = if crate::text::ends_with(s, '/') {
        s.drop_last()
    } else {
        s
    };
    lemma_upto_slash(t);
    let k = upto_slash(t);
    if exists|i: int| 0 <= i < s.len() - 1 && s[i] == '/' {
        let i = choose|i: int| 0 <= i < s.len() - 1 && s[i] == '/';
        assert(t[i] == '/');
        assert(k.len() > 0);
        assert(t.is_prefix_of(s));
        assert forall|j: int| k.len() <= j < s.len() - 1 implies s[j] != '/' by {
            assert(t[j] == s[j]);
        }
    } else {
        assert forall|i: int| 0 <= i < t.len() implies t[i] != '/' by {
            assert(t[i] == s[i]);
        }
    }
}

proof fn lemma_upto_slash(t: Seq<char>)
    ensures
        upto_slash(t).is_prefix_of(t),
        upto_slash(t).len() > 0 ==> upto_slash(t).last() == '/',
        forall|i: int| upto_slash(t).len() <= i < t.len() ==> t[i] != '/',
    decreases t.len(),
{
    if t.len() > 0 && t.last() != '/' {
        let d = t.drop_last();
        lemma_upto_slash(d);
        assert forall|i: int| upto_slash(t).len() <= i < t.len() implies t[i] != '/' by {
            if i < d.len() {
                assert(d[i] == t[i]);
            }
        }
    }
}

/// Three keys take the panel of permissions away, and do nothing else.
pub proof fn keys_close_the_permissions(a: AppView, code: KeyCode, env: Env)
    requires
        perms_take_keys(a),
        !a.perms->0.confirm_recursive,
        code == KeyCode::Esc || code == KeyCode::Char('q') || code == KeyCode::Char('i'),
    ensures
        a.key_step(pressed(code), env) == (
            AppView { perms: None, screen: Screen::Main, ..a },
            EffectView::Nothing,
        ),
{
}

/// While the question is asked, the arrows go from one answer to the other and back, and
/// escape takes the question away; the permissions stay as they are.
pub proof fn the_question_has_two_answers(a: AppView, code: KeyCode, env: Env)
    requires
        perms_take_keys(a),
        a.perms->0.confirm_recursive,
        a.perms->0.confirm_cursor <= 1,
        code == KeyCode::Left || code == KeyCode::Right || code == KeyCode::Tab,
    ensures
        ({
            let p = a.perms->0;
            let b = after(a, pressed(code), env);
            &&& asked(a, pressed(code), env) is Nothing
            &&& b == (AppView {
                perms: Some(
                    PermsView {
                        confirm_cursor: if p.confirm_cursor == 0 {
                            1
                        } else {
                            0
                        },
                        ..p
                    },
                ),
                ..a
            })
            &&& a.key_step(pressed(KeyCode::Esc), env) == (
                AppView { perms: Some(PermsView { confirm_recursive: false, ..p }), ..a },
                EffectView::Nothing,
            )
        }),
{
    assert(0u8 ^ 1u8 == 1u8) by (bit_vector);
    assert(1u8 ^ 1u8 == 0u8) by (bit_vector);
}

/// A character that was typed into a field is taken back by the next key for that.
pub proof fn erasing_reverts_typing(a: AppView, c: char, env: Env)
    requires
        item_takes_keys(a),
        a.new_item->0.error is None,
    ensures
        after(after(a, typed(c), env), pressed(KeyCode::Backspace), env) == a,
{
    reveal(AppView::item_step);
    let n = a.new_item->0;
    assert(n.name.push(c).drop_last() =~= n.name);
    assert(n.mode.push(c).drop_last() =~= n.mode);
    if n.focus == Focus::Create || n.focus == Focus::Cancel {
        assert(after(a, typed(c), env) == a);
    }
}

/// Completing takes the only entry on offer as a whole, a directory with a slash behind
/// it; of several it takes the start that they share.
pub proof fn completion_takes_what_is_certain(
    s: SpotlightView,
    now: u64,
    home: Option<Seq<char>>,
)
    requires
        s.candidates.len() > 0,
        split_typed(s.input, home).0.len() > 0,
        split_typed(s.input, home).0.last() != '/',
    ensures
        ({
            let t = s.completed(now, home).0;
            let dir = split_typed(s.input, home).0 + seq!['/'];
            let names = entry_names(s.candidates);
            &&& names.len() == 1 && s.candidates[0].is_dir ==> t.input == dir + names[0]
                + seq!['/']
            &&& names.len() == 1 && !s.candidates[0].is_dir ==> t.input == dir + names[0]
            &&& names.len() > 1 && common_prefix(names).len() > 0 ==> t.input == dir
                + common_prefix(names)
            &&& forall|i: int|
                0 <= i < names.len() ==> share_start(
                    common_prefix(names),
                    #[trigger] names[i],
                    common_prefix(names).len(),
                )
        }),
{
    let d = split_typed(s.input, home).0;
    let names = entry_names(s.candidates);
    assert(d.push('/') =~= d + seq!['/']);
    let e = s.candidates[0];
    assert((with_slash(d) + e.name@).push('/') =~= with_slash(d) + e.name@ + seq!['/']);
    let k = shared_by_all(names);
    common_prefix_is_longest(names, k);
    let c = common_prefix(names);
    assert forall|i: int| 0 <= i < names.len() implies share_start(
        c,
        #[trigger] names[i],
        c.len(),
    ) by {
        assert(share_start(names[0], names[i], k));
        assert forall|j: int| 0 <= j < k implies folded(#[trigger] c[j]) == folded(
            names[i][j],
        ) by {
            assert(folded(names[0][j]) == folded(names[i][j]));
        }
    }
}

/// Only a listing of the directory that was typed is offered from what was read before.
pub proof fn other_listings_are_not_offered(
    s: SpotlightView,
    now: u64,
    home: Option<Seq<char>>,
)
    ensures
        ({
            let (t, req) = s.refreshed(true, now, home);
            let (dir, partial) = split_typed(s.input, home);
            &&& req == Some(ReqView { generation: t.generation, parent: dir, partial })
            &&& t.generation != s.generation
            &&& t.input == s.input
            &&& s.cache matches Some((d, entries)) ==> if same_components(d, dir) {
                t.candidates == offered(entries, partial)
            } else {
                t.candidates == s.candidates
            }
            &&& s.cache is None ==> t.candidates == s.candidates
        }),
{
}

} // verus!
