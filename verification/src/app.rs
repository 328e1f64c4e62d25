use vstd::prelude::*;

use crate::option::{last_segment, last_segment_of, value_fits, FloatText, NixOption, OptionType, OptionValue, ValueView};
use crate::schema::{search_results, seen_contains, SchemaStore};
use crate::state::{law_set_then_get, mismatch_message, same_state, set_post, undo_post, ConfigState, StateError};
use crate::string_map::{distinct_keys, entry_keys, lemma_position_from, position_from, seq_lookup};
use crate::text::{
    before_char, chars_of, concat, find_char_from, join, join_texts, lemma_char_from, lemma_split_join, parse_i64,
    parsed_i64, same_text, split_char, split_text, starts_with, starts_with_text, string_of,
    text_before, views,
};

verus! {

/// The high-level screen the user is on.
#[derive(Debug, Clone, PartialEq)]
pub enum Screen {
    /// Loading spinner while options are being fetched.
    Loading { message: String },
    /// Category list (root or a sub-category).
    CategoryList { path: Vec<String> },
    /// Option editing screen (the value editor for a specific option).
    EditOption { option_name: String },
    /// Full-text search across all options.
    Search { query: String },
    /// Confirmation dialog (save, apply, discard).
    Confirm(ConfirmKind),
    /// Output log (nixos-rebuild output).
    Log { lines: Vec<String>, title: String },
    /// Error display.
    Error { message: String },
}

/// What a confirmation dialog asks.
#[derive(Debug, Clone, Copy, PartialEq, Eq, Structural)]
pub enum ConfirmKind {
    Save,
    Apply,
    Discard,
    Quit,
}

/// Editing mode within an option.
#[derive(Debug, Clone, Copy, PartialEq, Eq, Structural)]
pub enum AppMode {
    /// Normal navigation — keys move the cursor.
    Navigate,
    /// Typing into a text/number field.
    Editing,
    /// Confirmation dialog active.
    Confirming,
}

/// An item in a navigation list.
#[derive(Debug, Clone, PartialEq)]
pub enum ListItem {
    /// A namespace with sub-items.
    Category(String),
    /// A leaf option.
    Option(String),
}

/// What a list item is, with its path taken as its characters.
pub enum ItemView {
    Category(Seq<char>),
    Option(Seq<char>),
}

impl ItemView {
    /// The dotted path the item stands for.
    pub open spec fn path(self) -> Seq<char> {
        match self {
            ItemView::Category(p) => p,
            ItemView::Option(p) => p,
        }
    }
}

impl View for ListItem {
    type V = ItemView;

    open spec fn view(&self) -> ItemView {
        match self {
            ListItem::Category(p) => ItemView::Category(p@),
            ListItem::Option(p) => ItemView::Option(p@),
        }
    }
}

impl ListItem {
    /// The last segment of the item's path.
    pub fn display_name(&self) -> (r: &str)
        ensures
            r@ == last_segment(self@.path()),
    {
        match self {
            ListItem::Category(p) => last_segment_of(p.as_str()),
            ListItem::Option(p) => last_segment_of(p.as_str()),
        }
    }

    /// The item's whole dotted path.
    pub fn full_path(&self) -> (r: &str)
        ensures
            r@ == self@.path(),
    {
        match self {
            ListItem::Category(p) => p.as_str(),
            ListItem::Option(p) => p.as_str(),
        }
    }
}


// ---------------------------------------------------------------------------
// What the list screens show
// ---------------------------------------------------------------------------

/// `name` lies under the dotted `prefix`: every name lies under the empty one.
pub open spec fn under_prefix(name: Seq<char>, prefix: Seq<char>) -> bool {
    prefix.len() == 0 || starts_with(name, prefix + "."@)
}

/// What follows `prefix.` in a name under it.
pub open spec fn rest_after(name: Seq<char>, prefix: Seq<char>) -> Seq<char> {
    if prefix.len() == 0 {
        name
    } else {
        name.skip((prefix.len() + 1) as int)
    }
}

/// The item that a name under `prefix` shows as: the option itself where no
/// dot follows the prefix, else the namespace one level below the prefix.
pub open spec fn item_for(name: Seq<char>, prefix: Seq<char>) -> ItemView {
    let rest = rest_after(name, prefix);
    if rest.contains('.') {
        let seg = before_char(rest, '.');
        ItemView::Category(if prefix.len() == 0 { seg } else { prefix + "."@ + seg })
    } else {
        ItemView::Option(name)
    }
}

/// The paths of a list of items.
pub open spec fn item_paths(s: Seq<ItemView>) -> Seq<Seq<char>> {
    s.map_values(|x: ItemView| x.path())
}

/// The items under `prefix` of the first `n` names, in the order in which they
/// are first met, no path twice.
pub open spec fn path_items(names: Seq<Seq<char>>, prefix: Seq<char>, n: int) -> Seq<ItemView>
    decreases n,
{
    if n <= 0 || n > names.len() {
        Seq::empty()
    } else {
        let prev = path_items(names, prefix, n - 1);
        let name = names[n - 1];
        if under_prefix(name, prefix) && !item_paths(prev).contains(item_for(name, prefix).path()) {
            prev.push(item_for(name, prefix))
        } else {
            prev
        }
    }
}

/// The views of a list of items.
pub open spec fn items_view(v: Seq<ListItem>) -> Seq<ItemView> {
    v.map_values(|x: ListItem| x@)
}

/// What a screen lists, over the entries of the options map: a category list
/// the items under its joined path, a search its results, any other screen
/// nothing.
pub open spec fn screen_items(entries: Seq<(Seq<char>, NixOption)>, s: Screen) -> Seq<ItemView> {
    match s {
        Screen::CategoryList { path } => path_items(entry_keys(entries), join(views(path@), "."@), entries.len() as int),
        Screen::Search { query } => search_results(entries, query@).map_values(|o: NixOption| ItemView::Option(o.name@)),
        _ => Seq::empty(),
    }
}

// ---------------------------------------------------------------------------
// The application state
// ---------------------------------------------------------------------------

/// Top-level application state, shared between the input handler and renderer.
pub struct App {
    pub schema: SchemaStore,
    pub state: ConfigState,
    /// Current screen stack (back = pop).
    pub screen_stack: Vec<Screen>,
    /// Currently selected row index in list screens.
    pub cursor: usize,
    /// Input buffer for text/number editing.
    pub input_buf: String,
    pub input_cursor: usize,
    pub mode: AppMode,
    /// Status bar message (clears after next keypress).
    pub status_msg: Option<String>,
    /// True once we should exit the event loop.
    pub should_quit: bool,
    /// Output lines from the last nixos-rebuild run.
    pub build_log: Vec<String>,
}

/// `a` and `b` agree on everything but the screens, the cursor, the
/// configuration state and the status message.
pub open spec fn same_rest(a: App, b: App) -> bool {
    &&& a.schema == b.schema
    &&& a.input_buf@ == b.input_buf@
    &&& a.input_cursor == b.input_cursor
    &&& a.mode == b.mode
    &&& a.should_quit == b.should_quit
    &&& a.build_log@ == b.build_log@
}

/// `a` and `b` agree on everything but the screens and the cursor.
pub open spec fn keeps_data(a: App, b: App) -> bool {
    &&& same_rest(a, b)
    &&& a.state == b.state
    &&& a.status_msg == b.status_msg
}

/// `b` is `a` with `s` pushed: the cursor back at the top.
pub open spec fn pushed(a: App, b: App, s: Screen) -> bool {
    &&& b.screen_stack@ == a.screen_stack@.push(s)
    &&& b.cursor == 0
    &&& keeps_data(a, b)
}

/// `b` is `a` after going back: the top screen goes, unless it is the last one.
pub open spec fn popped(a: App, b: App) -> bool {
    &&& if a.screen_stack@.len() > 1 {
        b.screen_stack@ == a.screen_stack@.drop_last() && b.cursor == 0
    } else {
        b.screen_stack@ == a.screen_stack@ && b.cursor == a.cursor
    }
    &&& keeps_data(a, b)
}

/// `b` is `a` with the cursor moved to `c`.
pub open spec fn cursor_moved(a: App, b: App, c: int) -> bool {
    &&& b.screen_stack@ == a.screen_stack@
    &&& b.cursor == c
    &&& keeps_data(a, b)
}

/// Where the cursor goes up from `c` in a list of `n` items: one row up,
/// wrapping from the top to the bottom.
pub open spec fn row_above(c: int, n: nat) -> int {
    if n == 0 {
        c
    } else if c == 0 {
        n - 1
    } else {
        c - 1
    }
}

/// Where the cursor goes down from `c` in a list of `n` items: one row down,
/// wrapping from the bottom to the top.
pub open spec fn row_below(c: int, n: nat) -> int {
    if n == 0 {
        c
    } else {
        (c + 1) % (n as int)
    }
}

impl App {
    /// The screen on top of the stack.
    pub open spec fn top(self) -> Screen {
        self.screen_stack@.last()
    }

    /// What the current screen lists.
    pub open spec fn items(self) -> Seq<ItemView> {
        screen_items(self.schema.entries(), self.top())
    }

    pub fn new(schema: SchemaStore, state: ConfigState) -> (r: Self)
        ensures
            r.schema == schema,
            r.state == state,
            r.screen_stack@.len() == 1,
            r.top() matches Screen::CategoryList { path } && path@.len() == 0,
            r.cursor == 0,
            r.input_buf@.len() == 0,
            r.input_cursor == 0,
            r.mode == AppMode::Navigate,
            r.status_msg is None,
            !r.should_quit,
            r.build_log@.len() == 0,
    {
        let mut screen_stack: Vec<Screen> = Vec::new();
        screen_stack.push(Screen::CategoryList { path: Vec::new() });
        App {
            schema,
            state,
            screen_stack,
            cursor: 0,
            input_buf: String::new(),
            input_cursor: 0,
            mode: AppMode::Navigate,
            status_msg: None,
            should_quit: false,
            build_log: Vec::new(),
        }
    }

    /// The screen on top of the stack.
    pub fn current_screen(&self) -> (r: &Screen)
        requires
            self.screen_stack@.len() > 0,
        ensures
            *r == self.top(),
    {
        let n = self.screen_stack.len();
        &self.screen_stack[n - 1]
    }

    pub fn push_screen(&mut self, screen: Screen)
        ensures
            pushed(*old(self), *final(self), screen),
    {
        self.cursor = 0;
        self.screen_stack.push(screen);
    }

    pub fn pop_screen(&mut self)
        ensures
            popped(*old(self), *final(self)),
    {
        if self.screen_stack.len() > 1 {
            self.screen_stack.pop();
            // Restore cursor to 0 on back (could save per-level in future).
            self.cursor = 0;
        }
    }

    /// Replace the topmost screen without growing the stack.
    pub fn replace_screen(&mut self, screen: Screen)
        ensures
            final(self).screen_stack@ == if old(self).screen_stack@.len() > 0 {
                old(self).screen_stack@.update(old(self).screen_stack@.len() - 1, screen)
            } else {
                old(self).screen_stack@
            },
            final(self).cursor == 0,
            keeps_data(*old(self), *final(self)),
    {
        let n = self.screen_stack.len();
        if n > 0 {
            self.screen_stack.set(n - 1, screen);
        }
        self.cursor = 0;
    }

    /// The items under the dotted path made of `path`.
    fn items_for_path(&self, path: &Vec<String>) -> (r: Vec<ListItem>)
        ensures
            items_view(r@) == path_items(entry_keys(self.schema.entries()), join(views(path@), "."@), self.schema.entries().len() as int),
    {
        let prefix = join_texts(path, ".");
        let search = concat(prefix.as_str(), ".");
        proof { reveal_strlit("."); }
        let plen = prefix.as_str().unicode_len();
        let mut items: Vec<ListItem> = Vec::new();
        let mut seen: Vec<String> = Vec::new();
        let n = self.schema.len();
        let ghost names = entry_keys(self.schema.entries());
        let mut i: usize = 0;
        while i < n
            invariant
                n == self.schema.entries().len(),
                names == entry_keys(self.schema.entries()),
                prefix@ == join(views(path@), "."@),
                search@ == prefix@ + "."@,
                plen == prefix@.len(),
                i <= n,
                items_view(items@) == path_items(names, prefix@, i as int),
                views(seen@) == item_paths(path_items(names, prefix@, i as int)),
            decreases n - i,
        {
            let ghost prev = path_items(names, prefix@, i as int);
            proof { reveal_strlit("."); }
            if let Some((name, _)) = self.schema.option_at(i) {
                assert(names[i as int] == name@);
                let under = if plen == 0 { true } else { starts_with_text(name.as_str(), search.as_str()) };
                if under {
                    let cs = chars_of(name.as_str());
                    let clen = cs.len();
                    assert(plen > 0 ==> plen + 1 <= clen);
                    let start: usize = if plen == 0 { 0 } else { plen + 1 };
                    let rest = string_of(&cs, start, clen);
                    assert(rest@ =~= rest_after(name@, prefix@));
                    let rc = chars_of(rest.as_str());
                    proof { lemma_char_from(rc@, '.', 0); }
                    let has_dot = find_char_from(&rc, '.', 0).is_some();
                    proof {
                        if rest@.contains('.') {
                            let j = choose|j: int| 0 <= j < rest@.len() && rest@[j] == '.';
                            assert(rc@[j] == '.');
                        }
                    }
                    let ghost it = item_for(name@, prefix@);
                    let (key, item) = if has_dot {
                        let seg = text_before(rest.as_str(), '.');
                        let cp = if plen == 0 { seg } else { concat(search.as_str(), seg.as_str()) };
                        (cp.clone(), ListItem::Category(cp))
                    } else {
                        (name.clone(), ListItem::Option(name.clone()))
                    };
                    assert(item@ == it);
                    assert(key@ == it.path());
                    if !seen_contains(&seen, key.as_str()) {
                        let ghost iv = items@;
                        let ghost sv = seen@;
                        items.push(item);
                        seen.push(key);
                        assert(items_view(items@) =~= items_view(iv).push(it));
                        assert(views(seen@) =~= views(sv).push(it.path()));
                        assert(item_paths(prev.push(it)) =~= item_paths(prev).push(it.path()));
                    }
                }
            }
            i += 1;
        }
        items
    }

    /// Items visible on the current list screen.
    pub fn current_list_items(&self) -> (r: Vec<ListItem>)
        requires
            self.screen_stack@.len() > 0,
        ensures
            items_view(r@) == self.items(),
    {
        match self.current_screen() {
            Screen::CategoryList { path } => self.items_for_path(path),
            Screen::Search { query } => {
                let found = self.schema.search(query.as_str());
                let ghost hits = search_results(self.schema.entries(), query@);
                let mut out: Vec<ListItem> = Vec::new();
                let mut i: usize = 0;
                while i < found.len()
                    invariant
                        found@.map_values(|o: &NixOption| *o) == hits,
                        i <= found@.len(),
                        items_view(out@) == hits.take(i as int).map_values(|o: NixOption| ItemView::Option(o.name@)),
                    decreases found@.len() - i,
                {
                    let ghost prev = out@;
                    assert(*found@[i as int] == hits[i as int]);
                    out.push(ListItem::Option(found[i].name.clone()));
                    assert(hits.take(i + 1).map_values(|o: NixOption| ItemView::Option(o.name@))
                        =~= hits.take(i as int).map_values(|o: NixOption| ItemView::Option(o.name@)).push(ItemView::Option(hits[i as int].name@)));
                    assert(items_view(out@) =~= items_view(prev).push(ItemView::Option(hits[i as int].name@)));
                    i += 1;
                }
                assert(hits.take(found@.len() as int) =~= hits);
                out
            },
            _ => Vec::new(),
        }
    }

    pub fn move_up(&mut self)
        requires
            old(self).screen_stack@.len() > 0,
        ensures
            cursor_moved(*old(self), *final(self), row_above(old(self).cursor as int, old(self).items().len())),
    {
        let len = self.current_list_items().len();
        if len == 0 {
            return;
        }
        if self.cursor == 0 {
            self.cursor = len - 1;
        } else {
            self.cursor -= 1;
        }
    }

    pub fn move_down(&mut self)
        requires
            old(self).screen_stack@.len() > 0,
        ensures
            cursor_moved(*old(self), *final(self), row_below(old(self).cursor as int, old(self).items().len())),
    {
        let len = self.current_list_items().len();
        if len == 0 {
            return;
        }
        // `(cursor + 1) % len`, without overflow at `usize::MAX`.
        let c = self.cursor;
        let next = (c % len + 1) % len;
        proof {
            vstd::arithmetic::div_mod::lemma_add_mod_noop(c as int, 1, len as int);
            vstd::arithmetic::div_mod::lemma_mod_twice(1, len as int);
            if len > 1 {
                vstd::arithmetic::div_mod::lemma_small_mod(1, len as nat);
            }
        }
        self.cursor = next;
    }

    /// The item under the cursor, where the cursor is on one.
    pub fn selected_item(&self) -> (r: Option<ListItem>)
        requires
            self.screen_stack@.len() > 0,
        ensures
            match r {
                Some(it) => self.cursor < self.items().len() && it@ == self.items()[self.cursor as int],
                None => self.cursor >= self.items().len(),
            },
    {
        let mut items = self.current_list_items();
        if self.cursor < items.len() {
            let ghost v = items@;
            let it = items.remove(self.cursor);
            assert(it@ == items_view(v)[self.cursor as int]);
            Some(it)
        } else {
            None
        }
    }

    /// Enter the selected item.
    pub fn enter_selected(&mut self)
        requires
            old(self).screen_stack@.len() > 0,
        ensures
            entered(*old(self), *final(self)),
    {
        let ghost a = *self;
        match self.selected_item() {
            Some(ListItem::Category(path)) => {
                let parts = split_text(path.as_str(), '.');
                self.push_screen(Screen::CategoryList { path: parts });
                assert(self.screen_stack@.drop_last() =~= a.screen_stack@);
            },
            Some(ListItem::Option(name)) => {
                self.push_screen(Screen::EditOption { option_name: name });
                assert(self.screen_stack@.drop_last() =~= a.screen_stack@);
            },
            None => {},
        }
    }
}

/// The message shown for a refused edit.
fn error_status(e: &StateError) -> (r: String)
    ensures
        r@ == "error: "@ + (match e {
            StateError::TypeMismatch { message, .. } => message@,
        }),
{
    let m = e.message();
    concat("error: ", m.as_str())
}

/// The first index of `s` among `values`.
fn index_among(values: &Vec<String>, s: &str) -> (r: Option<usize>)
    ensures
        match r {
            Some(i) => position_from(views(values@), s@, 0) == Some(i as int),
            None => position_from(views(values@), s@, 0) is None,
        },
{
    let ghost vs = views(values@);
    let mut i: usize = 0;
    while i < values.len()
        invariant
            vs == views(values@),
            i <= values@.len(),
            position_from(vs, s@, 0) == position_from(vs, s@, i as int),
        decreases values@.len() - i,
    {
        assert(vs[i as int] == values@[i as int]@);
        if same_text(values[i].as_str(), s) {
            return Some(i);
        }
        i += 1;
    }
    None
}

/// Offers `v` for `opt` to the configuration state; a refusal goes to the
/// status bar.
fn offer(state: &mut ConfigState, status: &mut Option<String>, opt: &NixOption, v: OptionValue) -> (r: bool)
    ensures
        r == value_fits(v, opt.option_type),
        r ==> set_post(*old(state), *final(state), opt.name@, Some(v@)) && *final(status) == *old(status),
        !r ==> {
            &&& same_state(*old(state), *final(state))
            &&& *final(status) matches Some(m) && m@ == "error: "@ + mismatch_message(opt.name@, opt.option_type, v)
        },
{
    let ghost v0 = v;
    match state.set(opt, Some(v)) {
        Ok(()) => true,
        Err(e) => {
            *status = Some(error_status(&e));
            false
        },
    }
}

/// `b` is `a` after offering `v` for option `o`: where the value fits, the
/// state takes it as `set` does and the status stays; else the state stays and
/// the status tells why.
pub open spec fn set_through(a: App, b: App, o: NixOption, v: OptionValue) -> bool {
    &&& b.screen_stack@ == a.screen_stack@
    &&& b.cursor == a.cursor
    &&& same_rest(a, b)
    &&& if value_fits(v, o.option_type) {
        set_post(a.state, b.state, o.name@, Some(v@)) && b.status_msg == a.status_msg
    } else {
        &&& same_state(a.state, b.state)
        &&& b.status_msg matches Some(m) && m@ == "error: "@ + mismatch_message(o.name@, o.option_type, v)
    }
}

/// The boolean a toggle writes over the value `cur`: the negation of a boolean,
/// `true` over anything else.
pub open spec fn flipped(cur: Option<ValueView>) -> bool {
    match cur {
        Some(ValueView::Bool(b)) => !b,
        _ => true,
    }
}

/// `b` is `a` after toggling the option `name`.
pub open spec fn toggled(a: App, b: App, name: Seq<char>) -> bool {
    match seq_lookup(a.schema.entries(), name) {
        Some(o) => set_through(a, b, o, OptionValue::Bool(flipped(a.state.value_of(name)))),
        None => cursor_moved(a, b, a.cursor as int),
    }
}

/// Where the value `cur` stands among `values`: the first index of a string
/// found there, else 0.
pub open spec fn current_index(values: Seq<Seq<char>>, cur: Option<ValueView>) -> int {
    match cur {
        Some(ValueView::Str(s)) => match position_from(values, s, 0) {
            Some(i) => i,
            None => 0,
        },
        _ => 0,
    }
}

/// The index after `i` among `n` choices, forward or back, wrapping round.
pub open spec fn cycled_index(i: int, n: int, forward: bool) -> int {
    if forward {
        (i + 1) % n
    } else if i == 0 {
        n - 1
    } else {
        i - 1
    }
}

/// Every enum option named `name` in `entries` has at least one choice.
pub open spec fn has_choices(entries: Seq<(Seq<char>, NixOption)>, name: Seq<char>) -> bool {
    match seq_lookup(entries, name) {
        Some(o) => match o.option_type {
            OptionType::Enum { values } => values@.len() > 0,
            _ => true,
        },
        None => true,
    }
}

/// `b` is `a` after cycling the enum option `name` forward or back.
pub open spec fn cycled(a: App, b: App, name: Seq<char>, forward: bool) -> bool {
    match seq_lookup(a.schema.entries(), name) {
        Some(o) => match o.option_type {
            OptionType::Enum { values } => {
                let j = cycled_index(current_index(views(values@), a.state.value_of(name)), values@.len() as int, forward);
                set_through(a, b, o, OptionValue::Str(values@[j]))
            },
            _ => cursor_moved(a, b, a.cursor as int),
        },
        None => cursor_moved(a, b, a.cursor as int),
    }
}

/// `b` is `a` with the status bar showing `m` and nothing else changed.
pub open spec fn only_status(a: App, b: App, m: Seq<char>) -> bool {
    &&& b.screen_stack@ == a.screen_stack@
    &&& b.cursor == a.cursor
    &&& same_rest(a, b)
    &&& b.state == a.state
    &&& b.status_msg matches Some(x) && x@ == m
}

/// `b` is `a` back in navigation with an empty input, its state and status
/// aside.
pub open spec fn editor_closed(a: App, b: App) -> bool {
    &&& b.screen_stack@ == a.screen_stack@
    &&& b.cursor == a.cursor
    &&& b.schema == a.schema
    &&& b.should_quit == a.should_quit
    &&& b.build_log@ == a.build_log@
    &&& b.mode == AppMode::Navigate
    &&& b.input_buf@.len() == 0
    &&& b.input_cursor == 0
}

/// `b` is `a` after offering `v` for `o` and, where it was taken, leaving the
/// editor.
pub open spec fn committed_value(a: App, b: App, o: NixOption, v: OptionValue) -> bool {
    if value_fits(v, o.option_type) {
        &&& set_post(a.state, b.state, o.name@, Some(v@))
        &&& b.status_msg == a.status_msg
        &&& editor_closed(a, b)
    } else {
        set_through(a, b, o, v)
    }
}

/// `b` is `a` after committing the input buffer to the option `name`, with
/// `float_input` the number the buffer reads as, where it reads as one.
pub open spec fn committed(a: App, b: App, name: Seq<char>, float_input: Option<FloatText>) -> bool {
    match seq_lookup(a.schema.entries(), name) {
        Some(o) => match o.option_type {
            OptionType::Str => committed_value(a, b, o, OptionValue::Str(a.input_buf)),
            OptionType::Path => committed_value(a, b, o, OptionValue::Str(a.input_buf)),
            OptionType::Int { .. } => match parsed_i64(a.input_buf@) {
                Some(n) => committed_value(a, b, o, OptionValue::Int(n)),
                None => only_status(a, b, "'"@ + a.input_buf@ + "' is not a valid integer"@),
            },
            OptionType::Float => match float_input {
                Some(f) => committed_value(a, b, o, OptionValue::Float(f)),
                None => only_status(a, b, "'"@ + a.input_buf@ + "' is not a valid number"@),
            },
            _ => editor_closed(a, b) && b.state == a.state && b.status_msg == a.status_msg,
        },
        None => cursor_moved(a, b, a.cursor as int),
    }
}

impl App {
    /// Toggle a bool option in-place.
    pub fn toggle_bool(&mut self, name: &str)
        ensures
            toggled(*old(self), *final(self), name@),
    {
        let flip = match self.state.get(name) {
            Some(OptionValue::Bool(b)) => !*b,
            _ => true,
        };
        let opt = match self.schema.option_named(name) {
            Some(o) => o,
            None => return,
        };
        let _ = offer(&mut self.state, &mut self.status_msg, opt, OptionValue::Bool(flip));
    }

    /// Cycle an enum option to the next value.
    pub fn cycle_enum(&mut self, name: &str, forward: bool)
        requires
            has_choices(old(self).schema.entries(), name@),
        ensures
            cycled(*old(self), *final(self), name@, forward),
    {
        let opt = match self.schema.option_named(name) {
            Some(o) => o,
            None => return,
        };
        let values = match &opt.option_type {
            OptionType::Enum { values } => values,
            _ => return,
        };
        let n = values.len();
        let current_idx: usize = match self.state.get(name) {
            Some(OptionValue::Str(s)) => match index_among(values, s.as_str()) {
                Some(i) => i,
                None => 0,
            },
            _ => 0,
        };
        proof {
            lemma_position_from(views(values@), name@, 0);
            if let Some(ValueView::Str(s)) = self.state.value_of(name@) {
                lemma_position_from(views(values@), s, 0);
            }
        }
        let next_idx = if forward {
            (current_idx + 1) % n
        } else if current_idx == 0 {
            n - 1
        } else {
            current_idx - 1
        };
        let new_val = OptionValue::Str(values[next_idx].clone());
        let _ = offer(&mut self.state, &mut self.status_msg, opt, new_val);
    }

    /// Commits the input buffer as the value of `option_name`; `float_input`
    /// is the number the buffer reads as, where it reads as one.
    pub fn commit_input(&mut self, option_name: &str, float_input: Option<FloatText>)
        ensures
            committed(*old(self), *final(self), option_name@, float_input),
    {
        let raw = self.input_buf.clone();
        let opt = match self.schema.option_named(option_name) {
            Some(o) => o,
            None => return,
        };
        let parsed = match &opt.option_type {
            OptionType::Str | OptionType::Path => Some(OptionValue::Str(raw)),
            OptionType::Int { .. } => {
                match parse_i64(raw.as_str()) {
                    Some(n) => Some(OptionValue::Int(n)),
                    None => {
                        let mut m = concat("'", raw.as_str());
                        m.append("' is not a valid integer");
                        self.status_msg = Some(m);
                        return;
                    },
                }
            },
            OptionType::Float => {
                match float_input {
                    Some(f) => Some(OptionValue::Float(f)),
                    None => {
                        let mut m = concat("'", raw.as_str());
                        m.append("' is not a valid number");
                        self.status_msg = Some(m);
                        return;
                    },
                }
            },
            _ => None,
        };

        if let Some(val) = parsed {
            if !offer(&mut self.state, &mut self.status_msg, opt, val) {
                return;
            }
        }

        self.mode = AppMode::Navigate;
        self.input_buf = String::new();
        self.input_cursor = 0;
    }

    /// Shows `msg` in the status bar.
    pub fn set_status(&mut self, msg: String)
        ensures
            final(self).status_msg == Some(msg),
            final(self).screen_stack@ == old(self).screen_stack@,
            final(self).cursor == old(self).cursor,
            same_rest(*old(self), *final(self)),
            final(self).state == old(self).state,
    {
        self.status_msg = Some(msg);
    }

    /// Clears the status bar.
    pub fn clear_status(&mut self)
        ensures
            final(self).status_msg is None,
            final(self).screen_stack@ == old(self).screen_stack@,
            final(self).cursor == old(self).cursor,
            same_rest(*old(self), *final(self)),
            final(self).state == old(self).state,
    {
        self.status_msg = None;
    }
}

/// A key press the application reacts to.
#[derive(Debug, Clone, Copy, PartialEq, Eq, Structural)]
pub enum Key {
    Char(char),
    Up,
    Down,
    Enter,
    Esc,
    Other,
}

/// Whether the event loop goes on after a key.
#[derive(Debug, Clone, Copy, PartialEq, Eq, Structural)]
pub enum Flow {
    Continue,
    Quit,
}

/// The status message of the save key.
pub open spec fn save_note() -> Seq<char> {
    "💾 Save stub — writer coming next"@
}

/// The name that an undo of `s` gives back: that of the newest edit.
pub open spec fn undone_name(s: ConfigState) -> Option<Seq<char>> {
    if s.history().len() == 0 {
        None
    } else {
        Some(s.history().last().option_name)
    }
}

/// `b` is `a` after the key `key`, and `f` says whether to go on: `q` quits;
/// escape goes back to the screen below, or quits where there is none;
/// `j`/down and `k`/up move the cursor; enter opens the selected item; space
/// toggles the selected option; `u` undoes the newest edit; `s` notes that
/// saving is not there yet; any other key does nothing.
pub open spec fn key_handled(a: App, b: App, key: Key, f: Flow) -> bool {
    match key {
        Key::Char('q') => f == Flow::Quit && cursor_moved(a, b, a.cursor as int),
        Key::Esc => if a.screen_stack@.len() > 1 {
            f == Flow::Continue && popped(a, b)
        } else {
            f == Flow::Quit && cursor_moved(a, b, a.cursor as int)
        },
        Key::Char('u') => {
            &&& f == Flow::Continue
            &&& b.screen_stack@ == a.screen_stack@
            &&& b.cursor == a.cursor
            &&& same_rest(a, b)
            &&& b.status_msg == a.status_msg
            &&& undo_post(a.state, b.state, undone_name(a.state))
        },
        Key::Char('j') | Key::Down => f == Flow::Continue && cursor_moved(a, b, row_below(a.cursor as int, a.items().len())),
        Key::Char('k') | Key::Up => f == Flow::Continue && cursor_moved(a, b, row_above(a.cursor as int, a.items().len())),
        Key::Enter => f == Flow::Continue && entered(a, b),
        Key::Char(' ') => f == Flow::Continue && match selected(a) {
            Some(ItemView::Option(n)) => toggled(a, b, n),
            _ => cursor_moved(a, b, a.cursor as int),
        },
        Key::Char('s') => {
            &&& f == Flow::Continue
            &&& b.screen_stack@ == a.screen_stack@
            &&& b.cursor == a.cursor
            &&& same_rest(a, b)
            &&& b.state == a.state
            &&& b.status_msg matches Some(m) && m@ == save_note()
        },
        _ => f == Flow::Continue && cursor_moved(a, b, a.cursor as int),
    }
}

impl App {
    /// Reacts to a key press.
    pub fn handle_key(&mut self, key: Key) -> (r: Flow)
        requires
            old(self).screen_stack@.len() > 0,
        ensures
            key_handled(*old(self), *final(self), key, r),
            final(self).screen_stack@.len() > 0,
    {
        match key {
            Key::Char('q') => Flow::Quit,
            Key::Esc => {
                if self.screen_stack.len() > 1 {
                    self.pop_screen();
                    Flow::Continue
                } else {
                    Flow::Quit
                }
            },
            Key::Char('u') => {
                let _ = self.state.undo();
                Flow::Continue
            },
            Key::Char('j') | Key::Down => {
                self.move_down();
                Flow::Continue
            },
            Key::Char('k') | Key::Up => {
                self.move_up();
                Flow::Continue
            },
            Key::Enter => {
                self.enter_selected();
                Flow::Continue
            },
            Key::Char(' ') => {
                if let Some(ListItem::Option(name)) = self.selected_item() {
                    self.toggle_bool(name.as_str());
                }
                Flow::Continue
            },
            Key::Char('s') => {
                self.set_status("💾 Save stub — writer coming next".to_owned());
                Flow::Continue
            },
            _ => Flow::Continue,
        }
    }
}

/// The item under the cursor of `a`, where the cursor is on one.
pub open spec fn selected(a: App) -> Option<ItemView> {
    if a.cursor < a.items().len() {
        Some(a.items()[a.cursor as int])
    } else {
        None
    }
}

/// `b` is `a` after entering the selected item: a category opens its own list,
/// with its path taken apart at the dots; an option opens its editor; with
/// nothing selected nothing changes.
pub open spec fn entered(a: App, b: App) -> bool {
    match selected(a) {
        Some(ItemView::Category(p)) => {
            &&& b.screen_stack@.len() == a.screen_stack@.len() + 1
            &&& b.screen_stack@.drop_last() == a.screen_stack@
            &&& b.top() matches Screen::CategoryList { path } && views(path@) == split_char(p, '.')
            &&& b.cursor == 0
            &&& keeps_data(a, b)
        },
        Some(ItemView::Option(n)) => {
            &&& b.screen_stack@.len() == a.screen_stack@.len() + 1
            &&& b.screen_stack@.drop_last() == a.screen_stack@
            &&& b.top() matches Screen::EditOption { option_name } && option_name@ == n
            &&& b.cursor == 0
            &&& keeps_data(a, b)
        },
        None => cursor_moved(a, b, a.cursor as int),
    }
}

// ---------------------------------------------------------------------------
// Laws
// ---------------------------------------------------------------------------

/// Going back right after opening a screen gives back the screens as they
/// were, with nothing else changed.
pub proof fn law_pop_undoes_push(a: App, b: App, c: App, s: Screen)
    requires
        a.screen_stack@.len() > 0,
        pushed(a, b, s),
        popped(b, c),
    ensures
        c.screen_stack@ == a.screen_stack@,
        keeps_data(a, c),
{
    assert(c.screen_stack@ =~= a.screen_stack@);
}

/// No step of the screen stack leaves it empty.
pub proof fn law_screens_never_run_out(a: App, b: App, s: Screen)
    requires
        a.screen_stack@.len() > 0,
        pushed(a, b, s) || popped(a, b) || entered(a, b),
    ensures
        b.screen_stack@.len() > 0,
{
}

/// Moving down one row and back up one row puts the cursor where it was, when
/// it was on an item.
pub proof fn law_down_then_up(a: App, b: App, c: App)
    requires
        a.cursor < a.items().len(),
        cursor_moved(a, b, row_below(a.cursor as int, a.items().len())),
        cursor_moved(b, c, row_above(b.cursor as int, b.items().len())),
    ensures
        c.cursor == a.cursor,
        c.items() == a.items(),
{
    let n = a.items().len() as int;
    assert(b.items() == a.items());
    if a.cursor + 1 < n {
        vstd::arithmetic::div_mod::lemma_small_mod((a.cursor + 1) as nat, n as nat);
    } else {
        vstd::arithmetic::div_mod::lemma_mod_self_0(n);
    }
}

/// Moving up one row and back down one row puts the cursor where it was, when
/// it was on an item.
pub proof fn law_up_then_down(a: App, b: App, c: App)
    requires
        a.cursor < a.items().len(),
        cursor_moved(a, b, row_above(a.cursor as int, a.items().len())),
        cursor_moved(b, c, row_below(b.cursor as int, b.items().len())),
    ensures
        c.cursor == a.cursor,
        c.items() == a.items(),
{
    let n = a.items().len() as int;
    assert(b.items() == a.items());
    if a.cursor == 0 {
        vstd::arithmetic::div_mod::lemma_mod_self_0(n);
    } else {
        vstd::arithmetic::div_mod::lemma_small_mod(a.cursor as nat, n as nat);
    }
}

/// A move down always lands on an item of a nonempty list; so does a move up
/// from an item.
pub proof fn law_moves_stay_in_list(c: int, n: nat)
    requires
        n > 0,
        0 <= c,
    ensures
        0 <= row_below(c, n),
        row_below(c, n) < n,
        c < n ==> row_above(c, n) < n,
{
    vstd::arithmetic::div_mod::lemma_mod_bound((c + 1) as int, n as int);
}

/// The option found under `name` in a well-formed store is named `name`.
proof fn lemma_found_named(store: SchemaStore, name: Seq<char>)
    requires
        store.wf(),
    ensures
        seq_lookup(store.entries(), name) matches Some(o) ==> o.name@ == name,
{
    lemma_position_from(entry_keys(store.entries()), name, 0);
    if let Some(i) = position_from(entry_keys(store.entries()), name, 0) {
        assert(store.entries()[i].1.name@ == store.entries()[i].0);
    }
}

/// Toggling a boolean option twice gives it back its value.
pub proof fn law_toggle_twice(a: App, b: App, c: App, name: Seq<char>, x: bool)
    requires
        a.schema.wf(),
        a.state.valid(),
        seq_lookup(a.schema.entries(), name) matches Some(o) && o.option_type is Bool,
        a.state.value_of(name) == Some(ValueView::Bool(x)),
        toggled(a, b, name),
        toggled(b, c, name),
    ensures
        c.state.value_of(name) == a.state.value_of(name),
{
    lemma_found_named(a.schema, name);
    let o = seq_lookup(a.schema.entries(), name).unwrap();
    law_set_then_get(a.state, b.state, name, Some(ValueView::Bool(!x)));
    law_set_then_get(b.state, c.state, name, Some(ValueView::Bool(x)));
}

/// Where the choices of an enum option are distinct, cycling it forward and
/// then back gives back a value that was among them.
pub proof fn law_cycle_there_and_back(a: App, b: App, c: App, name: Seq<char>, v: Seq<char>)
    requires
        a.schema.wf(),
        a.state.valid(),
        seq_lookup(a.schema.entries(), name) matches Some(o) && o.option_type matches OptionType::Enum { values }
            && distinct_keys(views(values@)) && views(values@).contains(v),
        a.state.value_of(name) == Some(ValueView::Str(v)),
        cycled(a, b, name, true),
        cycled(b, c, name, false),
    ensures
        c.state.value_of(name) == a.state.value_of(name),
{
    lemma_found_named(a.schema, name);
    let o = seq_lookup(a.schema.entries(), name).unwrap();
    let values = o.option_type->values;
    let vs = views(values@);
    let n = vs.len() as int;
    lemma_position_from(vs, v, 0);
    let i = position_from(vs, v, 0).unwrap();
    let j = cycled_index(i, n, true);
    if i + 1 < n {
        vstd::arithmetic::div_mod::lemma_small_mod((i + 1) as nat, n as nat);
    } else {
        vstd::arithmetic::div_mod::lemma_mod_self_0(n);
    }
    assert(vs[j] == values@[j]@);
    law_set_then_get(a.state, b.state, name, Some(ValueView::Str(vs[j])));
    lemma_position_from(vs, vs[j], 0);
    assert(position_from(vs, vs[j], 0) == Some(j));
    assert(vs[i] == values@[i]@);
    law_set_then_get(b.state, c.state, name, Some(ValueView::Str(vs[i])));
}

/// Cycling an enum option steps through its choices in their order: forward
/// from a choice to the next one, from the last back to the first; back from a
/// choice to the one before, from the first to the last. From a value that is
/// not among the choices, forward gives the second choice (the first where
/// there is only one) and back the last.
pub proof fn law_cycle_steps(a: App, b: App, name: Seq<char>, forward: bool)
    requires
        a.schema.wf(),
        a.state.valid(),
        seq_lookup(a.schema.entries(), name) matches Some(o) && o.option_type matches OptionType::Enum { values }
            && distinct_keys(views(values@)) && values@.len() > 0,
        cycled(a, b, name, forward),
    ensures
        ({
            let vs = views(seq_lookup(a.schema.entries(), name).unwrap().option_type->values@);
            let n = vs.len() as int;
            &&& forall|i: int| 0 <= i < n && a.state.value_of(name) == Some(ValueView::Str(#[trigger] vs[i])) ==>
                b.state.value_of(name) == Some(ValueView::Str(
                    if forward { if i + 1 < n { vs[i + 1] } else { vs[0] } } else { if i > 0 { vs[i - 1] } else { vs[n - 1] } },
                ))
            &&& !(a.state.value_of(name) matches Some(ValueView::Str(s)) && vs.contains(s)) ==>
                b.state.value_of(name) == Some(ValueView::Str(
                    if forward { if n > 1 { vs[1] } else { vs[0] } } else { vs[n - 1] },
                ))
        }),
{
    lemma_found_named(a.schema, name);
    let o = seq_lookup(a.schema.entries(), name).unwrap();
    let values = o.option_type->values;
    let vs = views(values@);
    let n = vs.len() as int;
    let cur = a.state.value_of(name);
    let i0 = current_index(vs, cur);
    let j = cycled_index(i0, n, forward);
    if let Some(ValueView::Str(s)) = cur {
        lemma_position_from(vs, s, 0);
    }
    assert(0 <= i0 < n);
    if forward {
        if i0 + 1 < n {
            vstd::arithmetic::div_mod::lemma_small_mod((i0 + 1) as nat, n as nat);
        } else {
            vstd::arithmetic::div_mod::lemma_mod_self_0(n);
        }
    }
    assert(vs[j] == values@[j]@);
    law_set_then_get(a.state, b.state, name, Some(ValueView::Str(vs[j])));
    assert forall|i: int| 0 <= i < n && a.state.value_of(name) == Some(ValueView::Str(#[trigger] vs[i])) implies
        b.state.value_of(name) == Some(ValueView::Str(
            if forward { if i + 1 < n { vs[i + 1] } else { vs[0] } } else { if i > 0 { vs[i - 1] } else { vs[n - 1] } },
        )) by {
        lemma_position_from(vs, vs[i], 0);
        if let Some(p) = position_from(vs, vs[i], 0) {
            if p != i {
                assert(vs[p] == vs[i]);
            }
        }
    }
    if !(cur matches Some(ValueView::Str(s)) && vs.contains(s)) {
        if let Some(ValueView::Str(s)) = cur {
            if let Some(p) = position_from(vs, s, 0) {
                assert(vs[p] == s);
            }
        }
        assert(i0 == 0);
    }
}

/// Toggling a boolean option flips it: a boolean becomes its negation, and an
/// option without a boolean value becomes `true`.
pub proof fn law_toggle_flips(a: App, b: App, name: Seq<char>)
    requires
        a.schema.wf(),
        a.state.valid(),
        seq_lookup(a.schema.entries(), name) matches Some(o) && o.option_type is Bool,
        toggled(a, b, name),
    ensures
        a.state.value_of(name) matches Some(ValueView::Bool(x)) ==> b.state.value_of(name) == Some(ValueView::Bool(!x)),
        !(a.state.value_of(name) matches Some(ValueView::Bool(_))) ==> b.state.value_of(name) == Some(ValueView::Bool(true)),
{
    lemma_found_named(a.schema, name);
    law_set_then_get(a.state, b.state, name, Some(ValueView::Bool(flipped(a.state.value_of(name)))));
}

/// Opening a category lists what lies under its path.
pub proof fn law_enter_lists_category(a: App, b: App, p: Seq<char>)
    requires
        selected(a) == Some(ItemView::Category(p)),
        entered(a, b),
    ensures
        b.items() == path_items(entry_keys(a.schema.entries()), p, a.schema.entries().len() as int),
{
    lemma_split_join(p, '.', 0);
    reveal_strlit(".");
    assert("."@ =~= seq!['.']);
    assert(p.subrange(0, p.len() as int) =~= p);
}

/// A text or path option takes the input buffer as its value on commit.
pub proof fn law_commit_text(a: App, b: App, name: Seq<char>, f: Option<FloatText>)
    requires
        a.schema.wf(),
        a.state.valid(),
        seq_lookup(a.schema.entries(), name) matches Some(o) && (o.option_type is Str || o.option_type is Path),
        committed(a, b, name, f),
    ensures
        b.state.value_of(name) == Some(ValueView::Str(a.input_buf@)),
        b.mode == AppMode::Navigate,
        b.input_buf@.len() == 0,
{
    lemma_found_named(a.schema, name);
    law_set_then_get(a.state, b.state, name, Some(ValueView::Str(a.input_buf@)));
}

/// An integer option takes the number that the input buffer spells on commit;
/// where it spells none, the option keeps its value and the editor stays open.
pub proof fn law_commit_int(a: App, b: App, name: Seq<char>, f: Option<FloatText>)
    requires
        a.schema.wf(),
        a.state.valid(),
        seq_lookup(a.schema.entries(), name) matches Some(o) && o.option_type is Int,
        committed(a, b, name, f),
    ensures
        match parsed_i64(a.input_buf@) {
            Some(n) => b.state.value_of(name) == Some(ValueView::Int(n)) && b.mode == AppMode::Navigate,
            None => b.state == a.state && b.mode == a.mode && b.input_buf@ == a.input_buf@,
        },
{
    lemma_found_named(a.schema, name);
    if let Some(n) = parsed_i64(a.input_buf@) {
        law_set_then_get(a.state, b.state, name, Some(ValueView::Int(n)));
    }
}

} // verus!
