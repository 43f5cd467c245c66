//! The session as a frontend drives it, with a small text engine, key map, prompt and file tree
//! standing in for the ones an editor brings.

use std::collections::{HashMap, HashSet};
use std::ops::{Deref, DerefMut};

use deco::comparison::Hunk;
use deco::editing::{Change, Direction, Position, Range, Selection, SelectionSet, TextEdit};
use deco::path::PathBuf;
use deco::session::documents::{Languages, WrapColumns, Written};
use deco::session::edits::{EditError, Edited, Engine, Snippet, Variables};
use deco::session::files::{Operation, Stamp};
use deco::session::finding::{Finder, Reader};
use deco::session::outcome::{ComparisonKind, ComparisonRequest, Outcome, ScmOperation};
use deco::session::prompts::{Answer, Answered, Names, Seed, CHECKOUT_CANCEL};
use deco::session::run::{pressed, Chord, Dispatched, Key, Modifiers, Ran, Resolution, Work};
use deco::session::scm::{Branch, CheckoutPlan, Comparison, Found};
use deco::session::start::{theme_name, KeymapProblem, Setup};
use deco::session::state::{
    Diagnostic, Divisions, Document, EditorSettings, Field, Find, Focus, Indentation, PaletteEntry,
    PromptKind, PromptStart, Rect, Regions, ScmGroup, ScmRequest, ScmRow, SearchOptions, Session,
    Severity, SideBarView, TreeRequest, TreeRow, Wording, WordWrap,
};
use deco::session::tabs::TextState;
use deco::snippet::ActiveSnippet;
use deco::workspace::{Applied, DocumentChange, Plan, WorkspaceError};

// ---- A text with its history ----------------------------------------------

#[derive(Debug, Clone)]
struct Step {
    before: String,
    after: String,
    carets: (Selection, Selection),
    group: Option<u64>,
    typed: bool,
}

#[derive(Debug, Clone)]
struct Body {
    text: String,
    crlf: bool,
    undo: Vec<Step>,
    redo: Vec<Step>,
    version: i32,
}

fn width(text: &str) -> u32 {
    text.chars().map(|c| c.len_utf16() as u32).sum()
}

impl Body {
    fn new(text: &str) -> Body {
        Body {
            text: text.replace("\r\n", "\n"),
            crlf: text.contains("\r\n"),
            undo: Vec::new(),
            redo: Vec::new(),
            version: 0,
        }
    }

    fn lines(&self) -> Vec<&str> {
        self.text.split('\n').collect()
    }

    fn clamp(&self, at: Position) -> Position {
        let lines = self.lines();
        let last = lines.len() as u32 - 1;
        if at.line > last {
            return Position::new(last, width(lines[last as usize]));
        }
        let end = width(lines[at.line as usize]);
        Position::new(at.line, at.character.min(end))
    }

    fn offset(&self, at: Position) -> usize {
        let at = self.clamp(at);
        let mut offset = 0;
        for line in self.lines().iter().take(at.line as usize) {
            offset += line.len() + 1;
        }
        let line = self.lines()[at.line as usize];
        let mut column = 0;
        for c in line.chars() {
            if column >= at.character {
                break;
            }
            column += c.len_utf16() as u32;
            offset += c.len_utf8();
        }
        offset
    }

    fn position(&self, offset: usize) -> Position {
        let before = &self.text[..offset];
        let line = before.matches('\n').count() as u32;
        let start = before.rfind('\n').map(|i| i + 1).unwrap_or(0);
        Position::new(line, width(&before[start..]))
    }

    fn text_in(&self, range: Range) -> String {
        self.text[self.offset(range.start)..self.offset(range.end)].to_owned()
    }

    fn word_at(&self, at: Position) -> Option<Range> {
        let at = self.clamp(at);
        let line = self.lines()[at.line as usize].to_owned();
        let chars: Vec<char> = line.chars().collect();
        let word = |i: usize| i < chars.len() && (chars[i].is_alphanumeric() || chars[i] == '_');
        let mut start = at.character as usize;
        let mut end = start;
        while start > 0 && word(start - 1) {
            start -= 1;
        }
        while word(end) {
            end += 1;
        }
        if start == end {
            return None;
        }
        Some(Range::new(
            Position::new(at.line, start as u32),
            Position::new(at.line, end as u32),
        ))
    }

    fn edited(&self, changes: &[Change]) -> String {
        let mut spans: Vec<(usize, usize, String)> = changes
            .iter()
            .map(|c| (self.offset(c.range.start), self.offset(c.range.end), c.text.clone()))
            .collect();
        spans.sort_by_key(|span| span.0);
        let mut text = self.text.clone();
        for (start, end, with) in spans.into_iter().rev() {
            text.replace_range(start..end, &with);
        }
        text
    }

    fn step(&self, redo: bool) -> Option<(Body, Selection)> {
        let mut next = self.clone();
        let step = if redo { next.redo.pop()? } else { next.undo.pop()? };
        next.version += 1;
        let caret = if redo {
            next.text = step.after.clone();
            next.undo.push(step.clone());
            step.carets.1
        } else {
            next.text = step.before.clone();
            next.redo.push(step.clone());
            step.carets.0
        };
        Some((next, caret))
    }

    fn state(self, snippet: Option<ActiveSnippet>) -> TextState<Body> {
        TextState {
            empty: self.text.is_empty(),
            gutter: 4,
            version: self.version,
            snippet,
            undo_group: self.undo.last().and_then(|s| s.group),
            redo_group: self.redo.last().and_then(|s| s.group),
            body: self,
        }
    }

    fn disk(&self) -> (String, String) {
        let end = if self.crlf { "\r\n" } else { "\n" };
        (self.text.replace('\n', end), end.to_owned())
    }
}

fn copy_snippet(snippet: &Option<ActiveSnippet>) -> Option<ActiveSnippet> {
    snippet.as_ref().map(|s| ActiveSnippet { stops: s.stops.clone(), current: s.current })
}

/// The snippet after the changes, if it is still followed.
fn followed(snippet: &Option<ActiveSnippet>, changes: &Vec<Change>) -> Option<ActiveSnippet> {
    let mut snippet = copy_snippet(snippet)?;
    if snippet.apply(changes) {
        Some(snippet)
    } else {
        None
    }
}

/// The body with the changes as one step.
fn stepped(
    body: &Body,
    changes: &[Change],
    carets: (Selection, Selection),
    group: Option<u64>,
    typed: bool,
) -> Body {
    let mut next = body.clone();
    next.text = body.edited(changes);
    next.version += 1;
    next.redo.clear();
    next.undo.push(Step {
        before: body.text.clone(),
        after: next.text.clone(),
        carets,
        group,
        typed,
    });
    next
}

fn engine() -> Engine<
    impl Fn(&Body, Position) -> Position,
    impl Fn(&TextEdit) -> bool,
    impl Fn(&Vec<Change>) -> bool,
    impl Fn(
        &Body,
        &Option<ActiveSnippet>,
        &Vec<Change>,
        &SelectionSet,
        Option<u64>,
        Position,
    ) -> Edited<Body>,
> {
    Engine {
        clamp: |body: &Body, at: Position| body.clamp(at),
        noop: |edit: &TextEdit| {
            edit.range.start == edit.range.end && edit.new_text.is_empty()
        },
        overlaps: |changes: &Vec<Change>| {
            let mut ranges: Vec<Range> = changes.iter().map(|c| c.range).collect();
            ranges.sort_by_key(|r| (r.start.line, r.start.character));
            ranges.windows(2).any(|pair| pair[1].start.before(&pair[0].end))
        },
        commit: |body: &Body,
                 snippet: &Option<ActiveSnippet>,
                 changes: &Vec<Change>,
                 selections: &SelectionSet,
                 group: Option<u64>,
                 caret: Position| {
            let mut next = stepped(
                body,
                changes,
                (selections.primary, selections.primary),
                group,
                false,
            );
            let cursor = next.clamp(caret);
            if let Some(step) = next.undo.last_mut() {
                step.carets.1 = Selection::caret(cursor);
            }
            Edited {
                text: next.state(followed(snippet, changes)),
                cursor,
            }
        },
    }
}

// ---- Patterns --------------------------------------------------------------

/// One element of a pattern: what it matches, and whether more than once.
#[derive(Debug, Clone)]
enum Piece {
    One(char, bool),
    Word(bool),
    Digit(bool),
    Open,
    Close,
}

fn parse_pattern(pattern: &str) -> Result<Vec<Piece>, String> {
    let mut pieces = Vec::new();
    let mut chars = pattern.chars().peekable();
    let mut depth = 0;
    while let Some(c) = chars.next() {
        let mut piece = match c {
            '(' => {
                depth += 1;
                Piece::Open
            }
            ')' => {
                depth -= 1;
                Piece::Close
            }
            '\\' => match chars.next() {
                Some('w') => Piece::Word(false),
                Some('d') => Piece::Digit(false),
                Some(other) => Piece::One(other, false),
                None => return Err("incomplete escape".to_owned()),
            },
            other => Piece::One(other, false),
        };
        if chars.peek() == Some(&'+') {
            chars.next();
            piece = match piece {
                Piece::One(c, _) => Piece::One(c, true),
                Piece::Word(_) => Piece::Word(true),
                Piece::Digit(_) => Piece::Digit(true),
                other => other,
            };
        }
        pieces.push(piece);
    }
    if depth != 0 {
        return Err("unclosed group".to_owned());
    }
    Ok(pieces)
}

/// Where a match at `at` ends, and its groups.
fn match_at(pieces: &[Piece], chars: &[char], at: usize) -> Option<(usize, Vec<(usize, usize)>)> {
    let mut i = at;
    let mut open = Vec::new();
    let mut groups = Vec::new();
    for piece in pieces {
        let (test, many): (Box<dyn Fn(char) -> bool>, bool) = match piece {
            Piece::Open => {
                open.push(i);
                continue;
            }
            Piece::Close => {
                groups.push((open.pop()?, i));
                continue;
            }
            Piece::One(c, many) => {
                let c = *c;
                (Box::new(move |x| x == c), *many)
            }
            Piece::Word(many) => (Box::new(|x: char| x.is_alphanumeric() || x == '_'), *many),
            Piece::Digit(many) => (Box::new(|x: char| x.is_ascii_digit()), *many),
        };
        if i >= chars.len() || !test(chars[i]) {
            return None;
        }
        i += 1;
        while many && i < chars.len() && test(chars[i]) {
            i += 1;
        }
    }
    Some((i, groups))
}

fn escape(text: &str) -> String {
    let mut escaped = String::new();
    for c in text.chars() {
        if "\\.+*?()|[]{}^$".contains(c) {
            escaped.push('\\');
        }
        escaped.push(c);
    }
    escaped
}

/// Every match of a query in a text: its range, and what each of its groups holds.
fn matches_in(
    text: &str,
    query: &str,
    options: SearchOptions,
) -> Result<Vec<(Range, Vec<String>)>, String> {
    let source = if options.regex { query.to_owned() } else { escape(query) };
    let mut pieces = parse_pattern(&source).map_err(|e| format!("invalid regular expression: {e}"))?;
    let fold = |c: char| if options.case_sensitive { c } else { c.to_ascii_lowercase() };
    for piece in &mut pieces {
        if let Piece::One(c, _) = piece {
            *c = fold(*c);
        }
    }
    let mut found = Vec::new();
    for (line, content) in text.split('\n').enumerate() {
        let own: Vec<char> = content.chars().collect();
        let chars: Vec<char> = own.iter().map(|c| fold(*c)).collect();
        let mut at = 0;
        while at < chars.len() && !query.is_empty() {
            let Some((end, groups)) = match_at(&pieces, &chars, at) else {
                at += 1;
                continue;
            };
            let word = |i: usize| chars[i].is_alphanumeric() || chars[i] == '_';
            let bounded = (at == 0 || !word(at - 1)) && (end == chars.len() || !word(end));
            if options.whole_word && !bounded {
                at += 1;
                continue;
            }
            let column = |i: usize| own[..i].iter().map(|c| c.len_utf16() as u32).sum::<u32>();
            found.push((
                Range::new(
                    Position::new(line as u32, column(at)),
                    Position::new(line as u32, column(end)),
                ),
                groups.iter().map(|(a, b)| own[*a..*b].iter().collect()).collect(),
            ));
            at = end.max(at + 1);
        }
    }
    Ok(found)
}

/// A replacement with `$1` and so on filled in.
fn expanded(template: &str, groups: &[String], regex: bool) -> String {
    if !regex {
        return template.to_owned();
    }
    let mut out = String::new();
    let mut chars = template.chars();
    while let Some(c) = chars.next() {
        match c {
            '$' => {
                if let Some(n) = chars.next().and_then(|d| d.to_digit(10)) {
                    out.push_str(groups.get(n as usize - 1).map(String::as_str).unwrap_or(""));
                }
            }
            other => out.push(other),
        }
    }
    out
}

fn reader() -> Reader<impl Fn(&Body, Range) -> String, impl Fn(&Body, Position) -> Option<Range>> {
    Reader {
        text_in: |body: &Body, range: Range| body.text_in(range),
        word_at: |body: &Body, at: Position| body.word_at(at),
    }
}

fn finder() -> Finder<
    impl Fn(Find, Option<String>, Position, bool) -> Find,
    impl Fn(Find, &Body) -> Find,
    impl Fn(&Find, Position, Direction) -> Option<Range>,
    impl Fn(Find, String) -> Find,
    impl Fn(&Find, &Body) -> Vec<(Range, String)>,
> {
    let literal = |find: &Find, text: String| {
        if find.options.regex {
            escape(&text)
        } else {
            text
        }
    };
    Finder {
        open: move |find: Find, seed: Option<String>, origin: Position, replacing: bool| {
            let mut find = find;
            if let Some(seed) = seed {
                find.query = literal(&find, seed);
            }
            find.visible = true;
            find.origin = origin;
            find.replacing = find.replacing || replacing;
            find.field = if replacing && !find.query.is_empty() {
                Field::Replace
            } else {
                Field::Query
            };
            find
        },
        refresh: |find: Find, body: &Body| {
            let mut find = find;
            match matches_in(&body.text, &find.query, find.options) {
                Ok(found) => {
                    find.matches = found.into_iter().map(|(range, _)| range).collect();
                    find.error = None;
                }
                Err(error) => {
                    find.matches = Vec::new();
                    find.error = Some(error);
                }
            }
            find
        },
        nearest: |find: &Find, at: Position, direction: Direction| match direction {
            Direction::Next => find
                .matches
                .iter()
                .find(|r| !r.start.before(&at))
                .or(find.matches.first())
                .copied(),
            Direction::Prev => find
                .matches
                .iter()
                .rev()
                .find(|r| !at.before(&r.end))
                .or(find.matches.last())
                .copied(),
        },
        seeded: move |find: Find, seed: String| {
            let mut find = find;
            find.query = literal(&find, seed);
            find
        },
        expand: |find: &Find, body: &Body| {
            matches_in(&body.text, &find.query, find.options)
                .unwrap_or_default()
                .into_iter()
                .map(|(range, groups)| (range, expanded(&find.replace, &groups, find.options.regex)))
                .collect()
        },
    }
}

// ---- What a prompt is doing -----------------------------------------------

#[derive(Debug)]
struct Asked {
    kind: PromptKind,
    text: String,
    fresh: bool,
    entries: Option<Vec<PaletteEntry>>,
    row: usize,
}

impl Asked {
    fn kind(&self) -> PromptKind {
        self.kind
    }

    fn text(&self) -> &str {
        &self.text
    }

    fn has_list(&self) -> bool {
        self.entries.is_some()
    }

    /// The entries that match what was typed, the best first.
    fn visible(&self) -> Vec<&PaletteEntry> {
        let query = self.text.to_lowercase();
        let rank = |entry: &&PaletteEntry| {
            let title = entry.title.to_lowercase();
            if title.starts_with(&query) {
                0
            } else if title.contains(&query) {
                1
            } else {
                2
            }
        };
        let mut shown: Vec<&PaletteEntry> = self
            .entries
            .iter()
            .flatten()
            .filter(|entry| rank(entry) < 2)
            .collect();
        shown.sort_by_key(rank);
        shown
    }

    fn matches(&self) -> usize {
        self.visible().len()
    }

    fn selected(&self) -> Option<&PaletteEntry> {
        self.visible().get(self.row).copied()
    }

    fn selected_row(&self) -> usize {
        self.row
    }

    fn next(&mut self) {
        if self.row + 1 < self.matches() {
            self.row += 1;
        }
    }

    fn previous(&mut self) {
        self.row = self.row.saturating_sub(1);
    }
}

// ---- A file tree -----------------------------------------------------------

#[derive(Debug, Clone)]
struct Entry {
    name: String,
    dir: bool,
}

impl Entry {
    fn file(name: &str) -> Entry {
        Entry { name: name.to_owned(), dir: false }
    }

    fn dir(name: &str) -> Entry {
        Entry { name: name.to_owned(), dir: true }
    }
}

#[derive(Debug, Clone)]
struct Row {
    path: PathBuf,
    name: String,
    is_dir: bool,
    expanded: bool,
}

#[derive(Debug, Default)]
struct Tree {
    root: String,
    listings: HashMap<String, Vec<Entry>>,
    expanded: HashSet<String>,
    selected: Option<String>,
    wanted: Option<String>,
}

impl Tree {
    fn rows_under(&self, dir: &str, rows: &mut Vec<Row>) {
        for entry in self.listings.get(dir).into_iter().flatten() {
            let path = format!("{dir}/{}", entry.name);
            let expanded = entry.dir && self.expanded.contains(&path);
            rows.push(Row {
                path: PathBuf::from(&path),
                name: entry.name.clone(),
                is_dir: entry.dir,
                expanded,
            });
            if expanded {
                self.rows_under(&path, rows);
            }
        }
    }

    fn rows(&self) -> Vec<Row> {
        let mut rows = Vec::new();
        self.rows_under(&self.root, &mut rows);
        rows
    }

    fn index(&self) -> usize {
        let rows = self.rows();
        rows.iter()
            .position(|r| Some(r.path.display().to_owned()) == self.selected)
            .unwrap_or(0)
    }

    fn selection(&self) -> Option<Row> {
        self.rows().get(self.index()).cloned()
    }

    fn select(&mut self, index: usize) {
        let rows = self.rows();
        if let Some(row) = rows.get(index.min(rows.len().saturating_sub(1))) {
            self.selected = Some(row.path.display().to_owned());
        }
    }

    fn directory_wanted(&self) -> Option<PathBuf> {
        let mut dirs: Vec<&String> = self.expanded.iter().collect();
        dirs.sort();
        std::iter::once(&self.root)
            .chain(dirs)
            .find(|dir| !dir.is_empty() && !self.listings.contains_key(*dir))
            .map(|dir| PathBuf::from(dir))
    }

    fn known(&self) -> Vec<PathBuf> {
        let mut paths: Vec<String> = self
            .listings
            .iter()
            .flat_map(|(dir, list)| list.iter().map(move |entry| format!("{dir}/{}", entry.name)))
            .collect();
        paths.sort();
        paths.iter().map(|path| PathBuf::from(path)).collect()
    }

    fn under(path: &str, dir: &str) -> bool {
        path == dir || path.starts_with(&format!("{dir}/"))
    }

    fn forget(&mut self, dir: &str) {
        self.listings.retain(|path, _| !Tree::under(path, dir));
        self.expanded.retain(|path| !Tree::under(path, dir));
    }

    fn perform(&mut self, request: TreeRequest) {
        match request {
            TreeRequest::SelectNext => self.select(self.index() + 1),
            TreeRequest::SelectPrevious => self.select(self.index().saturating_sub(1)),
            TreeRequest::SelectFirst => self.select(0),
            TreeRequest::SelectLast => self.select(usize::MAX),
            TreeRequest::Expand => {
                if let Some(row) = self.selection().filter(|row| row.is_dir) {
                    self.expanded.insert(row.path.display().to_owned());
                }
            }
            TreeRequest::Collapse => {
                if let Some(row) = self.selection() {
                    self.expanded.remove(row.path.display());
                }
            }
            TreeRequest::Toggle => {
                if let Some(row) = self.selection().filter(|row| row.is_dir) {
                    let path = row.path.display().to_owned();
                    if !self.expanded.remove(&path) {
                        self.expanded.insert(path);
                    }
                }
            }
            TreeRequest::ScrollIntoView(_) => {}
            TreeRequest::Reveal(path) => {
                let path = path.display().to_owned();
                let mut dir = path.clone();
                while let Some(cut) = dir.rfind('/') {
                    dir.truncate(cut);
                    if dir.len() <= self.root.len() {
                        break;
                    }
                    self.expanded.insert(dir.clone());
                }
                self.wanted = Some(path);
            }
            TreeRequest::Invalidate(dir) => {
                self.listings.remove(dir.display());
            }
            TreeRequest::InvalidateUnder(dir) => {
                let dir = dir.display().to_owned();
                self.listings.retain(|path, _| !Tree::under(path, &dir));
            }
            TreeRequest::ForgetUnder(dir) => {
                let dir = dir.display().to_owned();
                self.forget(&dir);
            }
            TreeRequest::RekeyUnder(from, to) => {
                let (from, to) = (from.display().to_owned(), to.display().to_owned());
                let moved = |path: &String| {
                    if Tree::under(path, &from) {
                        format!("{to}{}", &path[from.len()..])
                    } else {
                        path.clone()
                    }
                };
                self.listings =
                    self.listings.drain().map(|(path, list)| (moved(&path), list)).collect();
                self.expanded = self.expanded.iter().map(moved).collect();
                self.selected = self.selected.as_ref().map(moved);
            }
        }
        self.settle();
    }

    fn settle(&mut self) {
        if let Some(path) = self.wanted.clone() {
            if self.rows().iter().any(|row| row.path.display() == path) {
                self.selected = Some(path);
                self.wanted = None;
            }
        }
    }
}

// ---- Settings and languages ------------------------------------------------

const LANGUAGES: [(&str, &str); 8] = [
    ("go", "Go"),
    ("java", "Java"),
    ("javascript", "JavaScript"),
    ("json", "JSON"),
    ("markdown", "Markdown"),
    ("python", "Python"),
    ("rust", "Rust"),
    ("toml", "TOML"),
];

const COMMANDS: [(&str, &str); 4] = [
    ("editor.action.commentLine", "Toggle Line Comment"),
    ("workbench.action.files.save", "Save"),
    ("undo", "Undo"),
    ("redo", "Redo"),
];

const PENDING: [(&str, &str); 1] =
    [("workbench.action.terminal.toggleTerminal", "Toggle Terminal")];

fn language_for_path(path: &PathBuf) -> Option<String> {
    let name = path.file_name()?;
    let id = match name.rsplit_once('.')?.1 {
        "rs" => "rust",
        "go" => "go",
        "toml" => "toml",
        "md" => "markdown",
        "py" => "python",
        "json" => "json",
        _ => return None,
    };
    Some(id.to_owned())
}

fn language_title(id: &str) -> String {
    LANGUAGES
        .iter()
        .find(|(known, _)| *known == id)
        .map(|(_, title)| (*title).to_owned())
        .unwrap_or(id.to_owned())
}

/// How a text is indented, as far as its lines agree.
fn detect(text: &str) -> Option<Indentation> {
    let mut least = 0;
    for line in text.split('\n') {
        if line.starts_with('\t') {
            return Some(Indentation::Tabs);
        }
        let spaces = line.len() - line.trim_start_matches(' ').len();
        if spaces > 0 && (least == 0 || spaces < least) {
            least = spaces;
        }
    }
    if least == 0 {
        None
    } else {
        Some(Indentation::Spaces(least))
    }
}

fn plain() -> EditorSettings {
    EditorSettings {
        tab_size: 4,
        insert_spaces: true,
        trim_trailing_whitespace: false,
        insert_final_newline: false,
        detect_indentation: true,
        word_wrap: WordWrap::Off,
        unsupported: None,
    }
}

/// The settings for every language, and those for some.
struct Config {
    base: EditorSettings,
    languages: Vec<(&'static str, EditorSettings)>,
    wrap_column: usize,
}

impl Config {
    fn of(base: EditorSettings) -> Config {
        Config { base, languages: Vec::new(), wrap_column: 80 }
    }

    fn resolve(&self, language: Option<&str>) -> EditorSettings {
        self.languages
            .iter()
            .find(|(id, _)| Some(*id) == language)
            .map(|(_, settings)| settings.clone())
            .unwrap_or(self.base.clone())
    }
}

fn from_file(path: Option<&PathBuf>, text: &str, config: &Config) -> Document<Body> {
    let language = path.and_then(language_for_path);
    let body = Body::new(text);
    let mut document = Document {
        path: path.cloned(),
        dirty: false,
        empty: body.text.is_empty(),
        language_id: language.clone(),
        language_pinned: false,
        settings: config.base.clone(),
        indentation: detect(&body.text),
        indentation_overridden: false,
        wrap_override: None,
        snippet: None,
        gutter: 4,
        version: 0,
        undo_group: None,
        redo_group: None,
        sealed: true,
        relex: true,
        body,
    };
    document.set_settings(config.resolve(language.as_deref()));
    document
}

/// A difference, one mark per line.
#[derive(Debug, Clone, Copy, PartialEq, Eq)]
enum Mark {
    Added,
    Modified,
}

#[derive(Debug)]
struct Marks(Vec<Option<Mark>>);

impl Marks {
    fn mark_at(&self, line: usize) -> Option<Mark> {
        self.0.get(line).copied().flatten()
    }

    fn is_empty(&self) -> bool {
        self.0.iter().all(Option::is_none)
    }
}

fn diff(head: &String, body: &Body) -> Marks {
    let old: Vec<&str> = head.split_terminator('\n').collect();
    let new: Vec<&str> = body.text.split_terminator('\n').collect();
    Marks(
        (0..new.len())
            .map(|i| match old.get(i) {
                None => Some(Mark::Added),
                Some(line) if *line != new[i] => Some(Mark::Modified),
                Some(_) => None,
            })
            .collect(),
    )
}

/// Where languages are looked up.
fn languages(
    config: &Config,
) -> Languages<
    impl Fn(&PathBuf) -> Option<String>,
    impl Fn(&String) -> String,
    impl Fn(&Option<String>) -> EditorSettings + '_,
> {
    Languages {
        implied: language_for_path,
        title: |id: &String| language_title(id),
        settings: move |id: &Option<String>| config.resolve(id.as_deref()),
    }
}

/// The runs of lines in which two texts differ.
fn hunks(left: &str, right: &str) -> Vec<Hunk> {
    let a: Vec<&str> = left.lines().collect();
    let b: Vec<&str> = right.lines().collect();
    let mut longest = vec![vec![0usize; b.len() + 1]; a.len() + 1];
    for i in (0..a.len()).rev() {
        for j in (0..b.len()).rev() {
            longest[i][j] = if a[i] == b[j] {
                longest[i + 1][j + 1] + 1
            } else {
                longest[i + 1][j].max(longest[i][j + 1])
            };
        }
    }
    let mut found = Vec::new();
    let (mut i, mut j) = (0, 0);
    while i < a.len() || j < b.len() {
        let (from, since) = (i, j);
        while i < a.len() || j < b.len() {
            if i < a.len() && j < b.len() && a[i] == b[j] {
                break;
            }
            if i < a.len() && (j == b.len() || longest[i + 1][j] >= longest[i][j + 1]) {
                i += 1;
            } else {
                j += 1;
            }
        }
        if (from, since) != (i, j) {
            found.push(Hunk {
                head_start: from,
                head_end: i,
                working_start: since,
                working_end: j,
            });
        }
        while i < a.len() && j < b.len() && a[i] == b[j] {
            i += 1;
            j += 1;
        }
    }
    found
}

// ---- The window ------------------------------------------------------------

fn divided(width: usize, height: usize, side: bool, panel: bool, right: bool) -> Regions {
    let side_width = 30;
    let panel_height = 8;
    let side = side && width >= side_width + 20;
    let panel = panel && height >= panel_height + 4;
    let taken = if side { side_width } else { 0 };
    let editor = Rect {
        left: if right { 0 } else { taken },
        top: 0,
        width: width - taken,
        height: if panel { height - panel_height } else { height },
    };
    Regions {
        editor,
        side_bar: if side {
            Some(Rect {
                left: if right { editor.width } else { 0 },
                top: 0,
                width: side_width,
                height,
            })
        } else {
            None
        },
        panel: if panel {
            Some(Rect { left: editor.left, top: editor.height, width: editor.width, height: panel_height })
        } else {
            None
        },
        one_column: editor.width,
        two_columns: (editor.width / 2, editor.width - editor.width / 2),
    }
}

fn divisions(width: usize, height: usize, right: bool) -> Divisions {
    Divisions {
        plain: divided(width, height, false, false, right),
        with_side_bar: divided(width, height, true, false, right),
        with_panel: divided(width, height, false, true, right),
        with_both: divided(width, height, true, true, right),
    }
}

// ---- The editor ------------------------------------------------------------

/// A server's word for a stretch of text.
type Span = &'static str;

struct Editor {
    session: Session<Body, Span, Marks>,
    config: Config,
    prompt: Option<Asked>,
    tree: Tree,
    scm_scroll: usize,
    chord: Option<String>,
    clipboard: String,
    right_side: bool,
    rebound: Vec<(&'static str, &'static str)>,
}

impl Deref for Editor {
    type Target = Session<Body, Span, Marks>;

    fn deref(&self) -> &Self::Target {
        &self.session
    }
}

impl DerefMut for Editor {
    fn deref_mut(&mut self) -> &mut Self::Target {
        &mut self.session
    }
}

fn inside(root: &PathBuf, path: &PathBuf) -> Result<(), String> {
    if path.starts_with(root) {
        Ok(())
    } else {
        Err("that is outside the workspace".to_owned())
    }
}

fn check_name(name: &str) -> Result<String, String> {
    let name = name.trim();
    if name.is_empty() || name.contains('/') || name.contains('\\') || name == ".." {
        Err(format!("`{name}` is not a name"))
    } else {
        Ok(name.to_owned())
    }
}

fn described(operation: &Operation) -> &'static str {
    match operation {
        Operation::CreateFile(_) => "create a file",
        Operation::CreateFolder(_) => "create a folder",
        Operation::Rename { .. } => "rename",
        Operation::Delete { .. } => "delete",
        Operation::DeleteIfEmpty { .. } => "undo the create",
    }
}

impl Editor {
    fn new(config: Config, problems: Vec<KeymapProblem>, theme: Option<&str>) -> Editor {
        let blank = from_file(None, "", &config);
        Editor {
            session: Session::new(Setup {
                blank,
                keymap_problems: problems,
                theme: theme.map(str::to_owned),
                theme_known: theme.is_none(),
                divisions: divisions(80, 24, false),
                git_enabled: true,
                gutter_marks: true,
                wording: Wording {
                    no_selection: "nothing is selected".to_owned(),
                    exists_before: "`".to_owned(),
                    exists_after: "` already exists".to_owned(),
                },
            }),
            config,
            prompt: None,
            tree: Tree::default(),
            scm_scroll: 0,
            chord: None,
            clipboard: String::new(),
            right_side: false,
            rebound: Vec::new(),
        }
    }

    fn blank(&self) -> Document<Body> {
        from_file(None, "", &self.config)
    }

    fn text(&self) -> &str {
        &self.session.active.document.body.text
    }

    fn line(&self, line: usize) -> &str {
        self.session.active.document.body.lines()[line]
    }

    fn text_at(&self, path: &str) -> &str {
        &self.document_at_path(&PathBuf::from(path)).expect("it is open").body.text
    }

    fn title(&self) -> String {
        self.session.active.document.title()
    }

    fn language(&self) -> Option<&str> {
        self.session.active.document.language_id.as_deref()
    }

    fn caret(&self) -> Position {
        self.session.active.view.selections.primary.active
    }

    fn primary(&self) -> Range {
        self.session.active.view.selections.primary.range()
    }

    fn select(&mut self, selections: SelectionSet) {
        self.session.active.view.selections = selections;
    }

    fn open(&mut self, path: PathBuf, text: &str) {
        let document = from_file(Some(&path), text, &self.config);
        self.session.open(document);
        self.settle();
    }

    fn resize(&mut self, width: usize, height: usize) {
        let divisions = divisions(width, height, self.right_side);
        self.session.resize(width, height, divisions);
        self.settle();
    }

    fn wrap_columns(&self) -> WrapColumns {
        let text = self.session.active.view.text_width;
        WrapColumns {
            off: 0,
            on: text,
            column: if text == 0 { 0 } else { self.config.wrap_column },
            bounded: text.min(self.config.wrap_column),
        }
    }

    fn wrap_column(&self) -> usize {
        self.wrap_columns().at(self.session.active.document.settings.word_wrap)
    }

    // Whatever the session asked for is done: the tree moves, the list scrolls, a prompt opens.
    fn settle(&mut self) {
        let mut requests = Vec::new();
        if let Some(explorer) = &mut self.session.tree.explorer {
            requests.append(&mut explorer.requests);
        }
        if !requests.is_empty() {
            for request in requests {
                self.tree.perform(request);
            }
            self.refill();
        }
        let requests: Vec<ScmRequest> = self.session.scm.requests.drain(..).collect();
        for request in requests {
            let last = self.session.scm.rows.len().saturating_sub(1);
            let at = self.session.scm.selected.unwrap_or(0);
            match request {
                ScmRequest::SelectNext => self.session.scm.selected = Some((at + 1).min(last)),
                ScmRequest::SelectPrevious => self.session.scm.selected = Some(at.saturating_sub(1)),
                ScmRequest::SelectFirst => self.session.scm.selected = Some(0),
                ScmRequest::SelectLast => self.session.scm.selected = Some(last),
                ScmRequest::ScrollIntoView(rows) => {
                    self.scm_scroll = self.scm_scroll.max((at + 1).saturating_sub(rows));
                }
            }
        }
        match (&self.session.prompt, &self.prompt) {
            (None, _) => self.prompt = None,
            (Some(prompt), asked) => {
                let same = asked.as_ref().is_some_and(|asked| asked.kind == prompt.kind);
                if !same {
                    let (text, fresh, entries) = match &prompt.start {
                        PromptStart::Plain => (String::new(), false, None),
                        PromptStart::List(list) => (String::new(), false, Some(list.clone())),
                        PromptStart::Seeded(text) => (text.clone(), true, None),
                        PromptStart::Prefixed(text) => (text.clone(), false, None),
                    };
                    self.prompt = Some(Asked { kind: prompt.kind, text, fresh, entries, row: 0 });
                }
            }
        }
        self.bring_on_screen();
    }

    // The caret is brought on screen where that was asked for.
    fn bring_on_screen(&mut self) {
        let view = &mut self.session.active.view;
        if view.reveal {
            let line = view.selections.primary.active.line as usize;
            if line < view.scroll_top {
                view.scroll_top = line;
            } else if view.height > 0 && line >= view.scroll_top + view.height {
                view.scroll_top = line + 1 - view.height;
            }
            view.reveal = false;
        }
    }

    fn refill(&mut self) {
        let rows = self
            .tree
            .rows()
            .into_iter()
            .map(|row| TreeRow { path: row.path, name: row.name, is_dir: row.is_dir })
            .collect();
        let selection = self
            .tree
            .selection()
            .map(|row| TreeRow { path: row.path, name: row.name, is_dir: row.is_dir });
        let wanted = self.tree.directory_wanted();
        let known = self.tree.known();
        self.session.fill_directory(rows, selection, wanted, known);
    }

    // ---- Running commands ----

    fn run(&mut self, command: &str, text: Option<&str>, _now: u64) -> Outcome {
        let blank = self.blank();
        let ran = self.session.run(command, blank);
        self.complete(command, text, ran)
    }

    fn complete(&mut self, command: &str, text: Option<&str>, ran: Ran) -> Outcome {
        let outcome = match ran {
            Ran::Done(outcome) => outcome,
            Ran::Wanted(work) => {
                let outcome = self.work(work, command, text);
                self.bring_on_screen();
                let title = PENDING.iter().find(|(id, _)| *id == command).map(|(_, title)| *title);
                self.session.finish(command, outcome, title)
            }
        };
        self.settle();
        outcome
    }

    fn work(&mut self, work: Work, command: &str, text: Option<&str>) -> Outcome {
        match work {
            Work::GoToMarker(direction) => self.session.goto_marker(
                direction,
                &|body: &Body, at: Position| body.clamp(at),
                &covers,
            ),
            Work::UndoGroup { group, redo } => {
                self.session.undo_group(group, redo, &|body: &Body, redo: bool| {
                    let (body, caret) = body.step(redo)?;
                    Some((body.state(None), SelectionSet::single(caret)))
                })
            }
            Work::ToggleWordWrap => {
                let language = self.session.active.document.language_id.clone();
                let configured = self.config.resolve(language.as_deref()).word_wrap;
                let columns = self.wrap_columns();
                self.session.toggle_word_wrap(configured, &columns)
            }
            Work::OpenFind { replacing } => {
                self.session.open_find(replacing, &reader(), &finder())
            }
            Work::ToggleField => {
                let find = &mut self.session.active.find;
                find.replacing = true;
                find.field = match find.field {
                    Field::Query => Field::Replace,
                    Field::Replace => Field::Query,
                };
                Outcome::Handled
            }
            Work::StepFind(direction) => self.session.step_find(direction, &reader(), &finder()),
            Work::FindAgain => self.session.find_query_changed(&finder()),
            Work::ReplaceOne => {
                self.session.replace_one(&reader(), &finder(), &engine())
            }
            Work::ReplaceAll => {
                self.session.replace_all(&reader(), &finder(), &engine())
            }
            Work::ShowCommands => self.session.show_commands(own_commands()),
            Work::AskSearch { replacing } => {
                let seed = self.seed();
                self.session.ask_search(seed, replacing)
            }
            Work::SelectNext => {
                if let Some(prompt) = &mut self.prompt {
                    prompt.next();
                }
                Outcome::Handled
            }
            Work::SelectPrevious => {
                if let Some(prompt) = &mut self.prompt {
                    prompt.previous();
                }
                Outcome::Handled
            }
            Work::AcceptPrompt => self.accept(),
            Work::OfferLanguages => {
                let listed = LANGUAGES
                    .iter()
                    .map(|(id, title)| ((*id).to_owned(), (*title).to_owned()))
                    .collect();
                self.session.offer_languages(&languages(&self.config), &listed)
            }
            Work::RevertUntitled { and_close } => {
                let (text, cursor) = self.reverted("");
                let blank = self.blank();
                self.session.revert_untitled(text, cursor, and_close, blank)
            }
            Work::Execute => self.execute(command, text.unwrap_or("")),
        }
    }

    fn accept(&mut self) -> Outcome {
        let under_caret = self.name_under_caret();
        let lines = self.session.active.document.body.lines().len() as u32;
        let asked = self.prompt.take();
        let text = asked.as_ref().map(|a| a.text.clone()).unwrap_or_default();
        let options = self.session.search.options;
        let answer = Answer {
            selected: asked.as_ref().and_then(|a| a.selected().cloned()),
            unsearchable: matches_in("", &text, options).err(),
            name_under_caret: under_caret,
            lines,
            text,
        };
        let body = self.session.active.document.body.clone();
        let answered = self.session.accept_prompt(
            answer,
            &|at: Position| body.clamp(at),
            &Names { checked: |name: &String| check_name(name), inside },
            &languages(&self.config),
        );
        self.settle();
        match answered {
            Answered::Done(outcome) => outcome,
            Answered::Run(command) => self.run(&command, None, 0),
        }
    }

    /// Edits the document, as a command of the text engine.
    fn execute(&mut self, command: &str, text: &str) -> Outcome {
        let primary = self.session.active.view.selections.primary;
        let range = primary.range();
        let caret = primary.active;
        let body = self.session.active.document.body.clone();
        match command {
            "type" => self.insert(range, text, true),
            "enter" => self.insert(range, "\n", false),
            "tab" => {
                let settings = self.session.active.document.settings.clone();
                let unit = if settings.insert_spaces {
                    " ".repeat(settings.tab_size)
                } else {
                    "\t".to_owned()
                };
                self.insert(range, &unit, false)
            }
            "deleteLeft" => {
                let from = if primary.is_empty() {
                    let before = body.offset(caret).saturating_sub(1);
                    Range::new(body.position(before), caret)
                } else {
                    range
                };
                self.insert(from, "", false)
            }
            "editor.action.clipboardPasteAction" => {
                let text = self.clipboard.clone();
                self.insert(range, &text, false)
            }
            "editor.action.commentLine" => {
                let start = Position::new(caret.line, 0);
                self.insert(Range::new(start, start), "// ", false)
            }
            "editor.action.selectAll" => {
                let end = body.position(body.text.len());
                self.select(SelectionSet::single(Selection::new(Position::new(0, 0), end)));
                Outcome::Handled
            }
            "cursorLeft" | "cursorRight" | "cursorUp" | "cursorDown" | "cursorEnd"
            | "cursorBottom" => {
                let at = match command {
                    "cursorLeft" => body.position(body.offset(caret).saturating_sub(1)),
                    "cursorRight" => Position::new(caret.line, caret.character + 1),
                    "cursorUp" => Position::new(caret.line.saturating_sub(1), caret.character),
                    "cursorDown" => Position::new(caret.line + 1, caret.character),
                    "cursorEnd" => Position::new(caret.line, u32::MAX),
                    _ => body.position(body.text.len()),
                };
                self.select(SelectionSet::caret(body.clamp(at)));
                self.session.active.view.reveal = true;
                Outcome::Handled
            }
            "undo" | "redo" => {
                if let Some((next, caret)) = body.step(command == "redo") {
                    let document = &mut self.session.active.document;
                    document.set_text(next.state(None));
                    document.dirty = true;
                    document.sealed = true;
                    self.select(SelectionSet::single(caret));
                }
                Outcome::Handled
            }
            "workbench.action.files.save" => Outcome::Save,
            "workbench.action.files.saveAll" => Outcome::SaveAll,
            _ => Outcome::NotFound,
        }
    }

    fn insert(&mut self, range: Range, text: &str, typed: bool) -> Outcome {
        let changes = vec![Change { range, text: text.to_owned() }];
        let before = self.session.active.view.selections.primary;
        let document = &mut self.session.active.document;
        let end = document.body.offset(range.start) + text.len();
        let mut next = stepped(&document.body, &changes, (before, before), None, typed);
        let caret = Selection::caret(next.position(end));
        next.undo.last_mut().expect("just made").carets.1 = caret;
        let merges = typed
            && !document.sealed
            && next.undo.len() >= 2
            && next.undo[next.undo.len() - 2].typed;
        if merges {
            let last = next.undo.pop().expect("just made");
            let earlier = next.undo.last_mut().expect("there are two");
            earlier.after = last.after;
            earlier.carets.1 = caret;
        }
        let snippet = followed(&document.snippet, &changes);
        document.set_text(next.state(snippet));
        document.dirty = true;
        document.sealed = false;
        self.select(SelectionSet::single(caret));
        self.session.active.view.reveal = true;
        Outcome::Handled
    }

    // ---- Keys ----

    /// Whether a text input takes the command, and what becomes of its text.
    fn typed_into(&mut self, input: &str, command: &str, text: Option<&str>) -> Option<String> {
        match command {
            "type" => Some(format!("{input}{}", text.unwrap_or(""))),
            "deleteLeft" => {
                let mut input = input.to_owned();
                input.pop();
                Some(input)
            }
            "editor.action.clipboardPasteAction" => Some(format!("{input}{}", self.clipboard)),
            "editor.action.clipboardCutAction" => {
                self.clipboard = input.to_owned();
                Some(String::new())
            }
            "undo" | "redo" | "tab" | "editor.action.selectAll" => Some(input.to_owned()),
            _ => None,
        }
    }

    fn dispatch(&mut self, command: &str, text: Option<&str>, _now: u64) -> Outcome {
        let (by_prompt, by_find) = self.takers(command);
        let blank = self.blank();
        let dispatched = self.session.dispatch(command, by_prompt, by_find, blank);
        let outcome = self.dispatched(command, text, dispatched);
        self.session.refresh_context();
        outcome
    }

    fn takers(&self, command: &str) -> (bool, bool) {
        let edits = matches!(
            command,
            "type" | "deleteLeft"
                | "editor.action.clipboardPasteAction"
                | "editor.action.clipboardCutAction"
                | "undo"
                | "redo"
                | "tab"
                | "editor.action.selectAll"
        );
        (edits, edits)
    }

    fn dispatched(&mut self, command: &str, text: Option<&str>, dispatched: Dispatched) -> Outcome {
        match dispatched {
            Dispatched::Consumed => {
                let asked = self.prompt.as_ref().expect("it took the command");
                let replaces = asked.fresh && command == "type";
                let input = if replaces { String::new() } else { asked.text.clone() };
                if let Some(now) = self.typed_into(&input, command, text) {
                    let asked = self.prompt.as_mut().expect("it took the command");
                    asked.text = now;
                    asked.fresh = false;
                    asked.row = 0;
                }
                Outcome::Handled
            }
            Dispatched::FindAgain => {
                let on_query = self.session.active.find.field == Field::Query;
                let input = if on_query {
                    self.session.active.find.query.clone()
                } else {
                    self.session.active.find.replace.clone()
                };
                if let Some(now) = self.typed_into(&input, command, text) {
                    if on_query {
                        self.session.active.find.query = now;
                    } else {
                        self.session.active.find.replace = now;
                    }
                }
                let outcome = self.session.find_query_changed(&finder());
                self.settle();
                outcome
            }
            Dispatched::Ran(ran) => self.complete(command, text, ran),
        }
    }

    /// The command that a key stands for where the keyboard is now.
    fn bound(&self, key: &str) -> Option<&'static str> {
        if let Some((_, command)) = self.rebound.iter().find(|(bound, _)| *bound == key) {
            return Some(command);
        }
        let keys = &self.session.context;
        let command = match key {
            "tab" if keys.in_snippet_mode => "jumpToNextSnippetPlaceholder",
            "shift+tab" if keys.in_snippet_mode => "jumpToPrevSnippetPlaceholder",
            "escape" if keys.in_quick_open => "workbench.action.closeQuickOpen",
            "escape" if keys.find_widget_visible => "closeFindWidget",
            "escape" if keys.in_snippet_mode => "leaveSnippet",
            "tab" | "shift+tab" if keys.in_quick_open => return None,
            "tab" | "shift+tab" if keys.find_widget_visible => "deco.find.toggleField",
            "tab" => "tab",
            "enter" if keys.in_quick_open => "workbench.action.acceptSelectedQuickOpenItem",
            "enter" if keys.replace_input_focussed => "editor.action.replaceOne",
            "enter" if keys.find_widget_visible => "editor.action.nextMatchFindAction",
            "shift+enter" if keys.find_widget_visible => "editor.action.previousMatchFindAction",
            "ctrl+alt+enter" => "editor.action.replaceAll",
            "enter" if keys.list_focus => "list.select",
            "enter" => "enter",
            "backspace" => "deleteLeft",
            "down" if keys.in_quick_open => "workbench.action.quickOpenSelectNext",
            "up" if keys.in_quick_open => "workbench.action.quickOpenSelectPrevious",
            "down" if keys.list_focus => "list.focusDown",
            "up" if keys.list_focus => "list.focusUp",
            "down" => "cursorDown",
            "up" => "cursorUp",
            "left" => "cursorLeft",
            "right" => "cursorRight",
            "alt+c" => "toggleFindCaseSensitive",
            "alt+w" => "toggleFindWholeWord",
            "alt+r" => "toggleFindRegex",
            "alt+z" => "editor.action.toggleWordWrap",
            "ctrl+z" if keys.side_bar_focus && !keys.files_explorer_focus => return None,
            "ctrl+z" => "undo",
            "ctrl+a" => "editor.action.selectAll",
            "ctrl+v" => "editor.action.clipboardPasteAction",
            "ctrl+x" => "editor.action.clipboardCutAction",
            "ctrl+s" => "workbench.action.files.save",
            "ctrl+shift+s" => "workbench.action.files.saveAs",
            "ctrl+q" => "workbench.action.quit",
            "ctrl+w" => "workbench.action.closeActiveEditor",
            "ctrl+f" => "actions.find",
            "ctrl+h" => "editor.action.startFindReplaceAction",
            "f3" => "editor.action.nextMatchFindAction",
            "f8" => "editor.action.marker.next",
            "ctrl+p" => "workbench.action.quickOpen",
            "ctrl+shift+p" => "workbench.action.showCommands",
            "ctrl+shift+f" => "workbench.action.findInFiles",
            "ctrl+g" => "workbench.action.gotoLine",
            "ctrl+tab" => "workbench.action.nextEditor",
            "ctrl+shift+tab" => "workbench.action.previousEditor",
            "ctrl+n" if keys.files_explorer_focus => "explorer.newFile",
            "ctrl+shift+n" if keys.files_explorer_focus => "explorer.newFolder",
            "f2" if keys.files_explorer_focus => "renameFile",
            "delete" if keys.files_explorer_focus => "deleteFile",
            "ctrl+n" if keys.list_focus => return None,
            "ctrl+n" => "workbench.action.files.newUntitledFile",
            "ctrl+\\" => "workbench.action.splitEditor",
            "ctrl+1" => "workbench.action.focusFirstEditorGroup",
            "ctrl+2" => "workbench.action.focusSecondEditorGroup",
            "ctrl+3" => "workbench.action.focusThirdEditorGroup",
            "ctrl+b" => "workbench.action.toggleSidebarVisibility",
            "ctrl+j" => "workbench.action.togglePanel",
            "ctrl+k ctrl+c" => "editor.action.commentLine",
            "ctrl+k ctrl+t" => "workbench.action.selectTheme",
            "ctrl+k m" => "workbench.action.editor.changeLanguageMode",
            "ctrl+k s" => "workbench.action.files.saveAll",
            _ => return None,
        };
        Some(command)
    }

    fn pending(&self) -> Option<&str> {
        self.chord.as_deref()
    }

    fn press(&mut self, key: &str) -> Outcome {
        let (resolution, key) = match self.chord.take() {
            Some(first) => {
                let whole = format!("{first} {key}");
                (self.bound(&whole), key.to_owned())
            }
            None if key == "ctrl+k" => {
                self.chord = Some(key.to_owned());
                (None, key.to_owned())
            }
            None => (self.bound(key), key.to_owned()),
        };
        let resolution = match resolution {
            Some(command) => Resolution::Match(command.to_owned()),
            None if self.chord.is_some() => Resolution::Pending,
            None => Resolution::NoMatch,
        };
        let chord = parse_chord(&key);
        let again = match &resolution {
            Resolution::Match(command) => Resolution::Match(command.clone()),
            Resolution::Pending => Resolution::Pending,
            Resolution::NoMatch => Resolution::NoMatch,
        };
        let named = pressed(again, chord);
        let (command, text) = match &named {
            Some(named) => (named.command.clone(), named.text.clone()),
            None => (String::new(), None),
        };
        let (by_prompt, by_find) = self.takers(&command);
        let blank = self.blank();
        let dispatched =
            self.session.handle_chord(resolution, chord, by_prompt, by_find, blank);
        let outcome = self.dispatched(&command, text.as_deref(), dispatched);
        self.session.refresh_context();
        outcome
    }

    // ---- What a frontend calls ----

    fn name_under_caret(&self) -> Option<String> {
        let body = &self.session.active.document.body;
        body.word_at(self.caret()).map(|range| body.text_in(range))
    }

    fn seed(&self) -> Option<Seed> {
        let (text, _) = self.session.seed_from_document(&reader())?;
        Some(Seed { escaped: escape(&text), text })
    }

    fn search_seed(&self) -> Option<String> {
        self.session.search_seed(self.seed())
    }

    fn offer_rename(&mut self) -> Outcome {
        let name = self.name_under_caret();
        let outcome = self.session.offer_rename(name);
        self.settle();
        outcome
    }

    fn offer_files(&mut self, files: Vec<PaletteEntry>) {
        self.prompt = None;
        self.session.offer_files(files);
        self.settle();
    }

    fn offer_search_results(&mut self, needle: &str, results: Vec<PaletteEntry>) {
        self.prompt = None;
        self.session.offer_search_results(needle, results);
        self.settle();
    }

    fn offer_symbols(&mut self, symbols: Vec<PaletteEntry>) {
        self.prompt = None;
        self.session.offer_symbols(symbols);
        self.settle();
    }

    fn offer_themes(&mut self, themes: Vec<PaletteEntry>) {
        self.prompt = None;
        self.session.offer_themes(themes);
        self.settle();
    }

    fn offer_branches(&mut self, branches: Vec<Branch>) {
        self.prompt = None;
        self.session.offer_branches(branches);
        self.settle();
    }

    fn confirm_checkout(&mut self, plan: &CheckoutPlan) {
        self.prompt = None;
        self.session.confirm_checkout(plan);
        self.settle();
    }

    fn offer_code_actions(&mut self, actions: Vec<PaletteEntry>) {
        self.prompt = None;
        self.session.offer_code_actions(actions);
        self.settle();
    }

    fn offer_extension_permissions(&mut self, decisions: Vec<PaletteEntry>) -> Outcome {
        self.prompt = None;
        let outcome = self.session.offer_extension_permissions(decisions);
        self.session.refresh_context();
        self.settle();
        outcome
    }

    fn ask_extension_consent(&mut self, what: &str) {
        self.prompt = None;
        self.session.ask_extension_consent(what);
        self.session.refresh_context();
        self.settle();
    }

    fn palette(&self) -> Vec<PaletteEntry> {
        self.session.palette(own_commands())
    }

    fn set_language(&mut self, language: Option<&str>) -> Outcome {
        self.session.set_language(language.map(str::to_owned), &languages(&self.config))
    }

    fn rename_to(&mut self, path: PathBuf) -> Outcome {
        self.session.rename_to(path, &languages(&self.config))
    }

    fn set_workspace_settings(&mut self, settings: EditorSettings) {
        self.config.base = settings;
        let language = self.session.active.document.language_id.clone();
        let resolved = self.config.resolve(language.as_deref());
        self.session.set_workspace_settings(Ok(resolved));
    }

    fn reverted(&self, text: &str) -> (TextState<Body>, Position) {
        let view = &self.session.active.view;
        let body = &self.session.active.document.body;
        let end = body.position(body.text.len());
        let whole = Range::new(Position::new(0, 0), end);
        let caret = view.selections.primary;
        let next = stepped(
            body,
            &[Change { range: whole, text: text.to_owned() }],
            (caret, caret),
            None,
            false,
        );
        let cursor = next.clamp(caret.active);
        (next.state(None), cursor)
    }

    fn revert_to(&mut self, text: &str) -> Outcome {
        let (text, cursor) = self.reverted(text);
        let blank = self.blank();
        let outcome = self.session.revert_to(text, cursor, blank);
        self.settle();
        outcome
    }

    fn save_contents(&self) -> String {
        let (disk, end) = self.session.active.document.body.disk();
        self.session.save_contents(&disk, &end)
    }

    fn unsaved(&self) -> Vec<(PathBuf, String)> {
        self.session.unsaved(&|body: &Body| body.disk())
    }

    fn save_all<W: FnMut(&PathBuf, &str) -> Result<(), String>>(&mut self, mut write: W) -> Outcome {
        let results = self
            .unsaved()
            .into_iter()
            .map(|(path, contents)| Written { error: write(&path, &contents).err(), path })
            .collect();
        self.session.save_all(results)
    }

    fn replace_range(&mut self, range: Range, text: &str) -> Position {
        self.session.replace_range(range, text, &engine())
    }

    fn apply_edits(&mut self, edits: Vec<TextEdit>) -> Result<usize, EditError> {
        self.session.apply_edits(&edits, &engine())
    }

    fn insert_snippet(&mut self, range: Range, snippet: &Snippet) {
        self.session.insert_snippet(range, snippet, &engine());
    }

    fn expand_snippet(&self, source: &str) -> Option<String> {
        self.session
            .expand_snippet(
                source,
                &|body: &Body, at: Position| body.clamp(at),
                &|body: &Body, line: u32| {
                    body.lines().get(line as usize).map(|line| (*line).to_owned())
                },
                &reader(),
                &parse_snippet,
            )
            .map(|snippet| snippet.text)
    }

    fn plan_replacements<R: Fn(&PathBuf) -> Result<String, String>>(
        &self,
        paths: &[&str],
        query: &str,
        replacement: &str,
        read: R,
    ) -> Result<Plan, WorkspaceError> {
        let options = SearchOptions { case_sensitive: false, whole_word: false, regex: false };
        let edits = |text: &str| -> Vec<TextEdit> {
            matches_in(text, query, options)
                .unwrap_or_default()
                .into_iter()
                .map(|(range, _)| TextEdit { range, new_text: replacement.to_owned() })
                .collect()
        };
        self.session.plan_replacements(
            Ok(()),
            &paths.iter().map(|path| PathBuf::from(path)).collect(),
            &read,
            &|body: &Body| edits(&body.text),
            &|text: &String| edits(text),
        )
    }

    fn apply_workspace_edit(&mut self, plan: Plan) -> Result<Applied, WorkspaceError> {
        let base = self.config.base.clone();
        let applied = self.session.apply_workspace_edit(
            plan,
            &engine(),
            &|path: &PathBuf, text: &String| {
                from_file(Some(path), text, &Config::of(base.clone()))
            },
        );
        self.settle();
        applied
    }

    fn reload_open(&mut self, path: &PathBuf, text: &str) -> bool {
        let base = self.config.base.clone();
        self.session.reload_open(
            path,
            &|_: &Option<String>| from_file(Some(path), text, &Config::of(base.clone())),
            &|body: &Body, at: Position| body.clamp(at),
        )
    }

    fn refresh_diffs(&mut self) {
        self.session.refresh_diffs(&diff);
    }

    fn diagnostics_at(&self, at: Position) -> Vec<&Diagnostic> {
        self.session.diagnostics_at(at, &covers)
    }

    // ---- The tree ----

    fn set_workspace_root(&mut self, root: &str) {
        self.tree = Tree { root: root.to_owned(), ..Tree::default() };
        self.session.set_workspace_root(PathBuf::from(root));
    }

    fn fill_directory(&mut self, dir: &str, entries: Vec<Entry>) {
        self.tree.listings.insert(dir.to_owned(), entries);
        self.tree.settle();
        self.refill();
    }

    fn create_in_tree(&mut self, name: &str, folder: bool) -> Outcome {
        let outcome = self.session.create_in_tree(check_name(name), folder, &inside);
        self.settle();
        outcome
    }

    fn rename_in_tree(&mut self, name: &str) -> Outcome {
        let outcome = self.session.rename_in_tree(name, check_name(name), &inside);
        self.settle();
        outcome
    }

    fn delete_in_tree(&mut self) -> Outcome {
        let outcome = self.session.delete_in_tree(&inside);
        self.settle();
        outcome
    }

    fn file_operation_done(&mut self, operation: &Operation) {
        let base = self.config.base.clone();
        self.session.file_operation_done(
            operation,
            described(operation),
            &language_for_path,
            &|_: &Option<String>| base.clone(),
        );
        self.settle();
    }

    fn file_operation_failed(&mut self, operation: &Operation, reason: &str) {
        self.session.file_operation_failed(operation, described(operation), reason);
        self.settle();
    }

    fn retarget(&mut self, from: &str, to: &str) {
        self.file_operation_done(&Operation::Rename {
            from: PathBuf::from(from),
            to: PathBuf::from(to),
            expect: None,
            directory: false,
        });
    }

    // ---- Comparisons ----

    fn open_comparison(
        &mut self,
        kind: ComparisonKind,
        original: Option<&str>,
        modified: Option<&str>,
    ) {
        let config = &self.config;
        self.session.open_comparison(
            &ComparisonRequest { path: PathBuf::from("work.rs"), original: None, kind },
            &Comparison {
                original: original.map(str::to_owned),
                modified: modified.map(str::to_owned),
            },
            &hunks(original.unwrap_or_default(), modified.unwrap_or_default()),
            &|path: &PathBuf, text: &String| from_file(Some(path), text, config),
        );
        self.settle();
    }
}

fn covers(diagnostic: &Diagnostic, at: Position) -> bool {
    !at.before(&diagnostic.range.start) && !diagnostic.range.end.before(&at)
}

fn own_commands() -> Vec<PaletteEntry> {
    COMMANDS
        .iter()
        .map(|(id, title)| PaletteEntry::new(id, title).with_detail(id))
        .collect()
}

fn at(path: &str, title: &str, at: Position) -> PaletteEntry {
    PaletteEntry { at: Some(at), ..PaletteEntry::new(path, title) }
}

fn parse_chord(key: &str) -> Chord {
    let mut modifiers = Modifiers { ctrl: false, shift: false, alt: false, meta: false };
    let mut rest = key;
    while let Some((held, after)) = rest.split_once('+') {
        match held {
            "ctrl" => modifiers.ctrl = true,
            "shift" => modifiers.shift = true,
            "alt" => modifiers.alt = true,
            "meta" => modifiers.meta = true,
            _ => break,
        }
        rest = after;
    }
    let mut chars = rest.chars();
    let key = match (chars.next(), chars.next()) {
        (Some(c), None) => Key::Char(c),
        _ if rest == "space" => Key::Char(' '),
        _ => Key::Named,
    };
    Chord { key, modifiers }
}

fn session() -> Editor {
    Editor::new(Config::of(plain()), Vec::new(), None)
}

fn press(s: &mut Editor, key: &str) -> Outcome {
    s.press(key)
}

fn options() -> SearchOptions {
    SearchOptions { case_sensitive: false, whole_word: false, regex: false }
}

fn empty_at(at: Position) -> Range {
    Range::new(at, at)
}

fn configured(settings: EditorSettings) -> Editor {
    Editor::new(Config::of(settings), Vec::new(), None)
}

// The source with its variables put in, and the defaults of those that are empty.
fn parse_snippet(source: &str, variables: &Variables) -> Option<Snippet> {
    let mut out = String::new();
    let mut chars = source.chars().peekable();
    while let Some(c) = chars.next() {
        if c != '$' {
            out.push(c);
            continue;
        }
        let braced = chars.peek() == Some(&'{');
        if braced {
            chars.next();
        }
        let mut name = String::new();
        while chars.peek().is_some_and(|c| c.is_alphanumeric() || *c == '_') {
            name.extend(chars.next());
        }
        let mut default = String::new();
        if braced {
            if chars.peek() == Some(&':') {
                chars.next();
            }
            for c in chars.by_ref() {
                if c == '}' {
                    break;
                }
                default.push(c);
            }
        }
        let value = variables.value(&name)?;
        out.push_str(if value.is_empty() { &default } else { &value });
    }
    Some(Snippet { text: out, stops: Vec::new() })
}

/// A snippet with `${1:text}` fields and a last `$0`.
fn snippet(source: &str) -> Snippet {
    let mut text = String::new();
    let mut fields: Vec<(u32, Range)> = Vec::new();
    let mut chars = source.chars().peekable();
    while let Some(c) = chars.next() {
        if c != '$' {
            text.push(c);
            continue;
        }
        let braced = chars.peek() == Some(&'{');
        if braced {
            chars.next();
        }
        let number = chars.next().and_then(|d| d.to_digit(10)).expect("a field's number");
        let start = Position::new(0, width(&text));
        if braced {
            chars.next();
            for c in chars.by_ref() {
                if c == '}' {
                    break;
                }
                text.push(c);
            }
        }
        fields.push((number, Range::new(start, Position::new(0, width(&text)))));
    }
    fields.sort_by_key(|(number, _)| if *number == 0 { u32::MAX } else { *number });
    Snippet { text, stops: fields.into_iter().map(|(_, stop)| stop).collect() }
}

#[test]
fn snippet_variables_read_the_active_document_and_selection() {
    let mut s = session();
    s.open(
        PathBuf::from("/w/sample.test.rs"),
        "header\nlet value = 1;\n",
    );
    s.active.view.selections = SelectionSet::single(Selection::new(Position::new(1, 4), Position::new(1, 9)));
    let text = s
        .expand_snippet("$TM_FILENAME|$TM_FILENAME_BASE|$TM_LINE_INDEX|$TM_LINE_NUMBER|$TM_CURRENT_LINE|$TM_CURRENT_WORD|$TM_SELECTED_TEXT")
        .unwrap();
    assert_eq!(
        text,
        "sample.test.rs|sample.test|1|2|let value = 1;|value|value"
    );
    assert_eq!(s.text(), "header\nlet value = 1;\n");
    assert!(!s.active.document.dirty);
}

#[test]
fn snippet_variables_in_an_untitled_document_use_defaults() {
    let s = session();
    let text = s
        .expand_snippet("${TM_FILENAME:untitled}|${TM_SELECTED_TEXT:empty}|$TM_LINE_NUMBER")
        .unwrap();
    assert_eq!(text, "untitled|empty|1");
    assert!(s.expand_snippet("$CLIPBOARD").is_none());
    assert!(s.expand_snippet("${UNKNOWN:default}").is_none());
}

#[test]
fn snippet_navigation_tracks_edits_and_finishes_at_zero() {
    let mut s = session();
    let snippet = snippet("call(${1:arg}, ${2:value})$0");
    s.insert_snippet(empty_at(Position::new(0, 0)), &snippet);
    assert_eq!(
        s.primary(),
        Range::new(Position::new(0, 5), Position::new(0, 8))
    );
    s.run(
        "type",
        Some("日本😀\n語"),
        1000,
    );
    press(&mut s, "tab");
    assert_eq!(
        s.primary(),
        Range::new(Position::new(1, 3), Position::new(1, 8))
    );
    press(&mut s, "shift+tab");
    assert_eq!(
        s.primary(),
        Range::new(Position::new(0, 5), Position::new(1, 1))
    );
    press(&mut s, "tab");
    press(&mut s, "tab");
    assert!(s.active.document.snippet.is_none());
    assert_eq!(s.caret(), Position::new(1, 9));
}

#[test]
fn snippet_escape_and_undo_clear_navigation() {
    let mut s = session();
    let snippet = snippet("${1:arg} end$0");
    s.insert_snippet(empty_at(Position::new(0, 0)), &snippet);
    press(&mut s, "escape");
    assert!(s.active.document.snippet.is_none());
    assert_eq!(s.text(), "arg end");
    s.run("undo", None, 1000);
    assert_eq!(s.text(), "");
    assert!(s.active.document.snippet.is_none());
    s.run("redo", None, 2000);
    assert_eq!(s.text(), "arg end");
    assert!(s.active.document.snippet.is_none());
}

#[test]
fn snippet_leaving_field_or_external_edit_cancels() {
    let mut s = session();
    let snippet = snippet("a ${1:arg} end$0");
    s.insert_snippet(empty_at(Position::new(0, 0)), &snippet);
    s.active.view.selections = SelectionSet::single(Selection::caret(Position::new(0, 0)));
    s.refresh_context();
    assert!(s.active.document.snippet.is_none());
    s.insert_snippet(empty_at(Position::new(0, 0)), &snippet);
    let start = Position::new(0, 0);
    s.apply_edits(vec![TextEdit { range: empty_at(start), new_text: "x".to_owned() }]).unwrap();
    assert!(s.active.document.snippet.is_none());
}

#[test]
fn snippet_special_line_breaks_cancel_tracking_and_keep_text() {
    for c in ['\r', '\u{0b}', '\u{0c}', '\u{85}', '\u{2028}', '\u{2029}'] {
        let mut s = session();
        let snippet = snippet("${1:arg} end$0");
        s.insert_snippet(empty_at(Position::new(0, 0)), &snippet);
        let text = format!("a{c}b");
        s.run("type", Some(&text), 1);
        assert!(s.active.document.snippet.is_none());
        assert!(s.text().contains('b'));
    }
}

#[test]
fn snippet_undo_while_active_does_not_restore_stale_stops() {
    let mut s = session();
    let snippet = snippet("${1:arg} end$0");
    s.insert_snippet(empty_at(Position::new(0, 0)), &snippet);
    s.run("type", Some("value"), 1000);
    s.run("undo", None, 2000);
    assert!(s.active.document.snippet.is_none());
    assert_eq!(s.text(), "arg end");
    s.run("redo", None, 3000);
    assert!(s.active.document.snippet.is_none());
    assert_eq!(s.text(), "value end");
}

#[test]
fn snippet_state_does_not_move_to_another_tab() {
    let mut s = session();
    s.open(PathBuf::from("first.rs"), "");
    let snippet = snippet("${1:arg} end$0");
    s.insert_snippet(empty_at(Position::new(0, 0)), &snippet);
    s.open(PathBuf::from("second.rs"), "");
    assert!(s.active.document.snippet.is_none());
    press(&mut s, "tab");
    assert!(!s.text().is_empty());
    assert_eq!(
        s.active.document.path, Some(PathBuf::from("second.rs"))
    );
}

/// A rename-shaped edit: one replacement per named file.
///
/// Each `(uri, line, from_len, to)` replaces `from_len` characters at the start of `line`, which is
/// enough to check that the correct text in the correct file changed.
fn workspace_edit(documents: &[(&str, u32, u32, &str)]) -> Vec<DocumentChange> {
    let mut changes: Vec<DocumentChange> = Vec::new();
    for (uri, line, from_len, to) in documents {
        let edit = edit(*line, 0, *from_len, to);
        match changes.iter_mut().find(|d| d.uri == *uri) {
            Some(seen) => seen.edits.push(edit),
            None => changes.push(change(uri, vec![edit])),
        }
    }
    changes
}

fn change(uri: &str, edits: Vec<TextEdit>) -> DocumentChange {
    DocumentChange {
        uri: uri.to_owned(),
        path: uri.strip_prefix("file://").map(PathBuf::from),
        version: None,
        actual: None,
        edits,
    }
}

/// Plans and applies in one go, reading missing files from `on_disk`.
fn apply_workspace(
    s: &mut Editor,
    edit: &Vec<DocumentChange>,
    on_disk: &[(&str, &str)],
) -> Result<Applied, WorkspaceError> {
    let plan = s.plan_workspace_edit(edit)?.with_contents(&|path: &PathBuf| {
        on_disk
            .iter()
            .find(|(name, _)| PathBuf::from(name) == *path)
            .map(|(_, text)| (*text).to_owned())
            .ok_or("no such file".to_owned())
    })?;
    s.apply_workspace_edit(plan)
}

/// Answers both prompts of a replace-in-files and returns the outcome.
fn replace_in_files(s: &mut Editor, query: &str, replacement: &str) -> Outcome {
    s.run("workbench.action.replaceInFiles", None, 0);
    // The seed is selected, so typing replaces whatever was under the caret.
    for c in query.chars() {
        press(s, &c.to_string());
    }
    let first = s.run("workbench.action.acceptSelectedQuickOpenItem", None, 0);
    assert_eq!(first, Outcome::Handled, "the query is only the first half");
    assert_eq!(
        s.prompt.as_ref().map(|p| p.kind()),
        Some(PromptKind::ReplaceQuery),
        "and the second prompt should be open"
    );
    for c in replacement.chars() {
        press(s, &c.to_string());
    }
    s.run("workbench.action.acceptSelectedQuickOpenItem", None, 0)
}

#[test]
fn replacing_in_files_asks_what_and_then_what_with() {
    let mut s = session();
    s.open(PathBuf::from("/w/a.rs"), "old\n");

    assert_eq!(
        replace_in_files(&mut s, "old", "new"),
        Outcome::ReplaceInFiles {
            query: "old".to_owned(),
            replacement: "new".to_owned(),
            options: options(),
        }
    );
}

#[test]
fn an_empty_replacement_deletes_and_is_not_refused() {
    // An empty replacement deletes every occurrence and must be accepted.
    let mut s = session();
    s.open(PathBuf::from("/w/a.rs"), "old\n");

    assert_eq!(
        replace_in_files(&mut s, "old", ""),
        Outcome::ReplaceInFiles {
            query: "old".to_owned(),
            replacement: String::new(),
            options: options(),
        }
    );
}

#[test]
fn find_in_files_still_searches_rather_than_replacing() {
    // The two commands open the same prompt, so the session must remember
    // which one was used until the prompt is accepted.
    let mut s = session();
    s.open(PathBuf::from("/w/a.rs"), "old\n");
    s.run("workbench.action.findInFiles", None, 0);
    for c in "old".chars() {
        press(&mut s, &c.to_string());
    }

    assert!(matches!(
        s.run("workbench.action.acceptSelectedQuickOpenItem", None, 0),
        Outcome::SearchInFiles { .. }
    ));
}

#[test]
fn a_replace_left_half_finished_does_not_leak_into_the_next_search() {
    let mut s = session();
    s.open(PathBuf::from("/w/a.rs"), "old\n");
    s.run("workbench.action.replaceInFiles", None, 0);
    s.run("workbench.action.closeQuickOpen", None, 0);

    // The next plain search must not turn into the replace that was abandoned.
    s.run("workbench.action.findInFiles", None, 0);
    for c in "old".chars() {
        press(&mut s, &c.to_string());
    }
    assert!(matches!(
        s.run("workbench.action.acceptSelectedQuickOpenItem", None, 0),
        Outcome::SearchInFiles { .. }
    ));
}

#[test]
fn a_replacement_is_planned_against_the_buffer_not_the_file() {
    // The search read the file from disk, and this tab has since changed. A replace must act on the
    // buffer. Otherwise it would edit positions in outdated text and a save would overwrite the
    // buffer's changes.
    let mut s = session();
    s.open(PathBuf::from("/w/a.rs"), "old old\n");
    press(&mut s, "x");

    let plan = s
        .plan_replacements(&["/w/a.rs"], "old", "new", |path: &PathBuf| {
            panic!("read {} when a tab holds it", path.display())
        })
        .expect("the tab supplies the text");

    assert_eq!(plan.documents(), 1);
    assert_eq!(plan.edits(), 2, "both occurrences, found in the buffer");
}

#[test]
fn a_file_no_tab_holds_is_planned_from_what_the_caller_read() {
    let mut s = session();
    s.open(PathBuf::from("/w/a.rs"), "nothing here\n");

    let plan = s
        .plan_replacements(&["/w/a.rs", "/w/b.rs"], "old", "new", |_: &PathBuf| {
            Ok("old and old again\n".to_owned())
        })
        .expect("b.rs was supplied");

    // a.rs has no matches and so is not opened, changed or listed.
    assert_eq!(plan.documents(), 1);
    assert_eq!(plan.edits(), 2);
    assert_eq!(
        plan.missing(),
        [&PathBuf::from("/w/b.rs")],
        "the one file that has to be opened"
    );
}

#[test]
fn a_replacement_reaches_every_file_as_one_undoable_step() {
    let mut s = session();
    s.open(PathBuf::from("/w/a.rs"), "old\n");
    s.open(PathBuf::from("/w/b.rs"), "old and old\n");

    let plan = s
        .plan_replacements(&["/w/a.rs", "/w/b.rs"], "old", "new", |_: &PathBuf| {
            unreachable!("both are open")
        })
        .expect("both are open");
    let applied = s.apply_workspace_edit(plan).expect("nothing overlaps");

    assert_eq!(applied.documents, 2);
    assert_eq!(applied.edits, 3);
    assert_eq!(s.text(), "new and new\n");

    s.run("undo", None, 0);
    assert_eq!(s.text(), "old and old\n");
    assert_eq!(
        s.text_at("/w/a.rs"),
        "old\n",
        "the other file came back in the same step"
    );
}

#[test]
fn a_file_that_cannot_be_read_refuses_the_whole_replacement() {
    let mut s = session();
    s.open(PathBuf::from("/w/a.rs"), "old\n");

    let error = s
        .plan_replacements(&["/w/a.rs", "/w/gone.rs"], "old", "new", |_: &PathBuf| {
            Err("no such file".to_owned())
        })
        .expect_err("one of the files is not there");

    assert!(matches!(
        error,
        WorkspaceError::Unreadable { ref path, .. } if *path == PathBuf::from("/w/gone.rs")
    ));
    assert_eq!(s.text(), "old\n", "and nothing was changed");
}

#[test]
fn the_rename_prompt_opens_with_the_current_name_in_it() {
    let mut s = session();
    s.open(PathBuf::from("/w/a.rs"), "fn greet() {}\n");
    s.active.view.selections = SelectionSet::caret(Position::new(0, 5));

    assert_eq!(s.offer_rename(), Outcome::Handled);
    let prompt = s.prompt.as_ref().expect("a prompt");
    assert_eq!(prompt.kind(), PromptKind::Rename);
    assert_eq!(prompt.text(), "greet");
}

#[test]
fn accepting_the_rename_prompt_unchanged_asks_for_nothing() {
    let mut s = session();
    s.open(PathBuf::from("/w/a.rs"), "fn greet() {}\n");
    s.active.view.selections = SelectionSet::caret(Position::new(0, 5));
    s.offer_rename();

    let outcome = s.run("workbench.action.acceptSelectedQuickOpenItem", None, 0);
    assert_eq!(
        outcome,
        Outcome::Message("`greet` is already its name".to_owned())
    );
}

#[test]
fn a_new_name_asks_the_frontend_to_carry_it_out() {
    let mut s = session();
    s.open(PathBuf::from("/w/a.rs"), "fn greet() {}\n");
    s.active.view.selections = SelectionSet::caret(Position::new(0, 5));
    s.offer_rename();
    for key in ["h", "i"] {
        press(&mut s, key);
    }

    assert_eq!(
        s.run("workbench.action.acceptSelectedQuickOpenItem", None, 0),
        Outcome::Rename {
            new_name: "hi".to_owned()
        },
        "the seed is selected, so typing replaces it"
    );
}

#[test]
fn rename_needs_something_under_the_cursor() {
    let mut s = session();
    s.open(PathBuf::from("/w/a.rs"), "   \n");
    s.active.view.selections = SelectionSet::caret(Position::new(0, 1));

    assert_eq!(
        s.offer_rename(),
        Outcome::Message("put the cursor on a name to rename it".to_owned())
    );
    assert!(s.prompt.is_none());
}

#[test]
fn a_workspace_edit_reaches_every_open_document() {
    let mut s = session();
    s.open(PathBuf::from("/w/a.rs"), "old();\n");
    s.open(PathBuf::from("/w/b.rs"), "old();\n");

    let applied = apply_workspace(
        &mut s,
        &workspace_edit(&[
            ("file:///w/a.rs", 0, 3, "new"),
            ("file:///w/b.rs", 0, 3, "new"),
        ]),
        &[],
    )
    .expect("both are open");

    assert_eq!(applied.documents, 2);
    assert_eq!(applied.edits, 2);
    assert_eq!(applied.opened, 0, "nothing had to be opened");
    assert_eq!(s.text(), "new();\n");
    assert_eq!(
        s.text_at("/w/a.rs"),
        "new();\n",
        "the background tab too"
    );
}

#[test]
fn a_file_no_tab_holds_is_opened_rather_than_written() {
    // The file is opened unsaved, so nothing is written to disk without the
    // user saving, and in a tab, so the user can see it needs saving.
    let mut s = session();
    s.open(PathBuf::from("/w/a.rs"), "old();\n");
    let tabs_before = s.tab_count();

    let applied = apply_workspace(
        &mut s,
        &workspace_edit(&[
            ("file:///w/a.rs", 0, 3, "new"),
            ("file:///w/far.rs", 0, 3, "new"),
        ]),
        &[("/w/far.rs", "old();\n")],
    )
    .expect("the missing file was supplied");

    assert_eq!(applied.opened, 1);
    assert_eq!(s.tab_count(), tabs_before + 1);
    let index = s.tab_of(&PathBuf::from("/w/far.rs")).expect("opened as a tab");
    let opened = &s.tab_at(index).document;
    assert_eq!(opened.body.text, "new();\n");
    assert!(opened.dirty, "unsaved, so ctrl+k s is what writes it");
}

#[test]
fn a_file_that_cannot_be_read_changes_nothing_at_all() {
    let mut s = session();
    s.open(PathBuf::from("/w/a.rs"), "old();\n");
    let tabs_before = s.tab_count();

    let error = apply_workspace(
        &mut s,
        &workspace_edit(&[
            ("file:///w/a.rs", 0, 3, "new"),
            ("file:///w/gone.rs", 0, 3, "new"),
        ]),
        &[],
    )
    .expect_err("one of the files is not there");

    assert!(matches!(
        error,
        WorkspaceError::Unreadable { .. }
    ));
    assert_eq!(
        s.text(),
        "old();\n",
        "the half that could have been applied was not"
    );
    assert_eq!(s.tab_count(), tabs_before, "and no tab was left behind");
    assert!(!s.active.document.dirty);
}

#[test]
fn overlapping_edits_change_nothing_at_all() {
    // The rejection must happen before the *other* document is changed. This is why all
    // transactions are built first.
    let mut s = session();
    s.open(PathBuf::from("/w/a.rs"), "old();\n");
    s.open(PathBuf::from("/w/b.rs"), "old();\n");

    let mut batch = workspace_edit(&[("file:///w/a.rs", 0, 3, "new")]);
    batch.push(change(
        "file:///w/b.rs",
        vec![edit(0, 0, 3, "one"), edit(0, 1, 4, "two")],
    ));

    let error = apply_workspace(&mut s, &batch, &[]).expect_err("b's edits overlap");
    assert!(matches!(
        error,
        WorkspaceError::Overlapping { ref path } if *path == PathBuf::from("/w/b.rs")
    ));
    assert_eq!(
        s.text_at("/w/a.rs"),
        "old();\n",
        "the file whose edits were fine is untouched"
    );
}

#[test]
fn one_undo_takes_the_whole_edit_back() {
    let mut s = session();
    s.open(PathBuf::from("/w/a.rs"), "old();\n");
    s.open(PathBuf::from("/w/b.rs"), "old();\n");
    apply_workspace(
        &mut s,
        &workspace_edit(&[
            ("file:///w/a.rs", 0, 3, "new"),
            ("file:///w/b.rs", 0, 3, "new"),
        ]),
        &[],
    )
    .expect("both are open");

    s.run("undo", None, 0);

    assert_eq!(s.text(), "old();\n");
    assert_eq!(
        s.text_at("/w/a.rs"),
        "old();\n",
        "the file that was not on screen came back too"
    );
}

#[test]
fn redo_puts_the_whole_edit_back() {
    let mut s = session();
    s.open(PathBuf::from("/w/a.rs"), "old();\n");
    s.open(PathBuf::from("/w/b.rs"), "old();\n");
    apply_workspace(
        &mut s,
        &workspace_edit(&[
            ("file:///w/a.rs", 0, 3, "new"),
            ("file:///w/b.rs", 0, 3, "new"),
        ]),
        &[],
    )
    .expect("both are open");
    s.run("undo", None, 0);
    s.run("redo", None, 0);

    assert_eq!(s.text(), "new();\n");
    assert_eq!(
        s.text_at("/w/a.rs"),
        "new();\n"
    );
}

#[test]
fn typing_after_a_workspace_edit_undoes_on_its_own() {
    // The keystroke belongs only to this document. After it is undone, the
    // shared step is next, and only then does undo reach the other files.
    let mut s = session();
    s.open(PathBuf::from("/w/a.rs"), "old();\n");
    s.open(PathBuf::from("/w/b.rs"), "old();\n");
    apply_workspace(
        &mut s,
        &workspace_edit(&[
            ("file:///w/a.rs", 0, 3, "new"),
            ("file:///w/b.rs", 0, 3, "new"),
        ]),
        &[],
    )
    .expect("both are open");

    press(&mut s, "x");
    s.run("undo", None, 0);
    assert_eq!(
        s.text(),
        "new();\n",
        "the keystroke came out"
    );
    assert_eq!(
        s.text_at("/w/a.rs"),
        "new();\n",
        "and the other file was left alone"
    );

    s.run("undo", None, 0);
    assert_eq!(
        s.text_at("/w/a.rs"),
        "old();\n",
        "the shared step was next, and reached both"
    );
}

#[test]
fn an_ordinary_undo_is_still_one_document() {
    let mut s = session();
    s.open(PathBuf::from("/w/a.rs"), "");
    s.open(PathBuf::from("/w/b.rs"), "");
    press(&mut s, "x");
    assert_eq!(
        s.run("undo", None, 0),
        Outcome::Handled,
        "not a group report"
    );
    assert_eq!(s.text(), "");
}

#[test]
fn a_default_session_starts_clean() {
    let s = session();
    assert!(s.problems.is_empty(), "{:?}", s.problems);
    assert_eq!(s.title(), "Untitled");
    assert_eq!(s.theme, "Default Dark Modern");
}

#[test]
fn an_unbound_printable_key_types_itself() {
    let mut s = session();
    press(&mut s, "h");
    press(&mut s, "i");
    assert_eq!(s.text(), "hi");
}

#[test]
fn shift_types_an_uppercase_character() {
    let mut s = session();
    press(&mut s, "shift+a");
    assert_eq!(s.text(), "A");
}

#[test]
fn an_unbound_control_chord_types_nothing() {
    let mut s = session();
    assert_eq!(press(&mut s, "ctrl+alt+shift+j"), Outcome::NotFound);
    assert_eq!(s.text(), "");
}

#[test]
fn bound_keys_reach_their_command() {
    let mut s = session();
    press(&mut s, "a");
    press(&mut s, "b");
    assert_eq!(s.text(), "ab");

    press(&mut s, "ctrl+z");
    assert_eq!(s.text(), "", "ctrl+z should undo");
}

#[test]
fn save_and_quit_reach_the_frontend() {
    // A document with a name. An untitled one opens the save-as prompt
    // instead, which has its own test.
    let mut s = searchable("x\n");
    assert_eq!(press(&mut s, "ctrl+s"), Outcome::Save);
    assert_eq!(press(&mut s, "ctrl+q"), Outcome::Quit);
}

#[test]
fn ctrl_s_on_an_untitled_document_asks_where_to_put_it() {
    let mut s = session();
    s.resize(80, 10);
    press(&mut s, "y");
    assert_eq!(press(&mut s, "ctrl+s"), Outcome::Handled);
    let prompt = s
        .prompt
        .as_ref()
        .expect("the save-as prompt should be open");
    assert_eq!(prompt.kind(), PromptKind::SaveAs);
    assert_eq!(prompt.text(), "", "nothing to seed it with");
}

#[test]
fn an_untitled_document_can_be_closed_once_it_has_been_saved() {
    // Save As followed by close, end to end.
    let mut s = session();
    s.resize(80, 10);
    press(&mut s, "y");
    press(&mut s, "ctrl+s");
    for key in ["a", ".", "t", "x", "t"] {
        press(&mut s, key);
    }
    assert_eq!(
        press(&mut s, "enter"),
        Outcome::SaveAs(PathBuf::from("a.txt"))
    );
    // The frontend writes the file and reports back, which clears `dirty`.
    s.rename_to(PathBuf::from("/w/a.txt"));
    assert_eq!(press(&mut s, "ctrl+w"), Outcome::Handled);
}

#[test]
fn a_chord_takes_two_presses() {
    let mut s = session();
    s.open(PathBuf::from("/w/a.rs"), "let x = 1;");
    assert_eq!(press(&mut s, "ctrl+k"), Outcome::Handled);
    assert!(s.pending().is_some());
    press(&mut s, "ctrl+c");
    assert!(s.pending().is_none());
    assert_eq!(s.text(), "// let x = 1;");
}

#[test]
fn context_keys_track_the_selection() {
    let mut s = session();
    press(&mut s, "a");
    assert_eq!(s.context.editor_has_selection, false);
    press(&mut s, "ctrl+a");
    assert_eq!(s.context.editor_has_selection, true);
}

#[test]
fn context_keys_track_the_language() {
    let mut s = session();
    assert_eq!(s.context.editor_lang_id, None);
    s.open(PathBuf::from("/w/main.rs"), "");
    assert_eq!(s.context.editor_lang_id.as_deref(), Some("rust"));
}

#[test]
fn user_keybindings_override_the_defaults() {
    let mut s = session();
    s.rebound.push(("ctrl+s", "workbench.action.quit"));
    assert!(s.problems.is_empty(), "{:?}", s.problems);
    assert_eq!(press(&mut s, "ctrl+s"), Outcome::Quit);
}

#[test]
fn a_broken_keybindings_file_is_reported_but_not_fatal() {
    let problem = KeymapProblem { index: 0, message: "unknown key `nonsense`".to_owned() };
    let mut s = Editor::new(Config::of(plain()), vec![problem], None);
    assert_eq!(s.problems.len(), 1);
    // The defaults still work. `ctrl+q` rather than `ctrl+s`, because an untitled document routes
    // the save key to the save-as prompt.
    assert_eq!(press(&mut s, "ctrl+q"), Outcome::Quit);
}

#[test]
fn an_unknown_theme_falls_back_and_is_reported() {
    let s = Editor::new(Config::of(plain()), Vec::new(), Some("Nonexistent Theme"));
    assert_eq!(s.theme, "Default Dark Modern");
    assert_eq!(s.problems.len(), 1);
    assert_eq!(theme_name(Some("Night Owl")), "Night Owl");
}

#[test]
fn language_specific_settings_apply_to_the_open_document() {
    let mut config = Config::of(EditorSettings { tab_size: 2, ..plain() });
    config.languages.push(("go", EditorSettings { tab_size: 8, ..plain() }));
    let mut s = Editor::new(config, Vec::new(), None);

    s.open(PathBuf::from("/w/main.go"), "");
    assert_eq!(s.active.document.settings.tab_size, 8);

    s.open(PathBuf::from("/w/main.rs"), "");
    assert_eq!(s.active.document.settings.tab_size, 2);
}

#[test]
fn saving_round_trips_crlf() {
    let mut s = session();
    s.open(PathBuf::from("/w/a.txt"), "one\r\ntwo\r\n");
    assert_eq!(s.save_contents(), "one\r\ntwo\r\n");
}

#[test]
fn insert_final_newline_adds_one_when_asked() {
    let mut s = configured(EditorSettings { insert_final_newline: true, ..plain() });
    s.open(PathBuf::from("/w/a.txt"), "no newline");
    assert_eq!(s.save_contents(), "no newline\n");
}

#[test]
fn marking_saved_clears_the_dirty_flag() {
    let mut s = session();
    press(&mut s, "x");
    assert!(s.active.document.dirty);
    s.mark_saved();
    assert!(!s.active.document.dirty);
}

#[test]
fn resizing_keeps_the_cursor_visible() {
    let mut s = session();
    s.open(PathBuf::from("/w/a.txt"), &"x\n".repeat(100));
    s.active.view.selections = SelectionSet::caret(Position::new(90, 0));
    s.resize(80, 20);
    let view = &s.active.view;
    assert!((view.scroll_top..view.scroll_top + view.height).contains(&90));
}

/// A diagnostic spanning one line, from `character` 0 to 4.
fn diagnostic(line: u32, severity: Severity, message: &str) -> Diagnostic {
    Diagnostic {
        range: Range::new(Position::new(line, 0), Position::new(line, 4)),
        severity,
        label: message.to_owned(),
    }
}

fn with_diagnostics(lines: &[u32]) -> Editor {
    let mut s = session();
    s.open(PathBuf::from("/w/a.rs"), &"line\n".repeat(20));
    s.set_diagnostics(
        lines
            .iter()
            .map(|line| diagnostic(*line, Severity::Error, "boom"))
            .collect(),
    );
    s
}

fn cursor_line(s: &Editor) -> u32 {
    s.caret().line
}

#[test]
fn diagnostics_set_the_context_key_vscode_uses() {
    // So a `when` clause copied from an existing keybindings.json behaves the
    // same here.
    let mut s = with_diagnostics(&[]);
    assert_eq!(s.context.editor_has_diagnostics, false);
    s.set_diagnostics(vec![diagnostic(1, Severity::Error, "x")]);
    assert_eq!(s.context.editor_has_diagnostics, true);
}

#[test]
fn publishing_replaces_rather_than_appends() {
    // The protocol replaces per document. Appending would duplicate every
    // error each time the file is analysed.
    let mut s = with_diagnostics(&[1, 2, 3]);
    s.set_diagnostics(vec![diagnostic(9, Severity::Error, "only")]);
    assert_eq!(s.active.diagnostics.len(), 1);
}

#[test]
fn opening_another_file_drops_the_previous_ones_diagnostics() {
    // They refer to line numbers in a file that is no longer on screen.
    let mut s = with_diagnostics(&[1, 2]);
    s.open(PathBuf::from("/w/b.rs"), "fn other() {}");
    assert!(s.active.diagnostics.is_empty());
    assert_eq!(s.context.editor_has_diagnostics, false);
}

#[test]
fn f8_walks_forward_through_the_problems() {
    let mut s = with_diagnostics(&[2, 5, 9]);
    for expected in [2, 5, 9] {
        s.run("editor.action.marker.next", None, 0);
        assert_eq!(cursor_line(&s), expected);
    }
}

#[test]
fn f8_wraps_around_at_the_end() {
    // Pressing again after the last error returns to the first.
    let mut s = with_diagnostics(&[2, 5]);
    s.active.view.selections = SelectionSet::caret(Position::new(19, 0));
    s.run("editor.action.marker.next", None, 0);
    assert_eq!(cursor_line(&s), 2);
}

#[test]
fn shift_f8_walks_backwards_and_wraps() {
    let mut s = with_diagnostics(&[2, 5, 9]);
    s.active.view.selections = SelectionSet::caret(Position::new(9, 0));
    s.run("editor.action.marker.prev", None, 0);
    assert_eq!(cursor_line(&s), 5);
    s.run("editor.action.marker.prev", None, 0);
    assert_eq!(cursor_line(&s), 2);
    s.run("editor.action.marker.prev", None, 0);
    assert_eq!(cursor_line(&s), 9, "wraps to the last");
}

#[test]
fn navigation_visits_problems_in_file_order_not_publication_order() {
    // Servers publish in the order analysis finished.
    let mut s = with_diagnostics(&[]);
    s.set_diagnostics(vec![
        diagnostic(9, Severity::Error, "third"),
        diagnostic(2, Severity::Error, "first"),
        diagnostic(5, Severity::Error, "second"),
    ]);
    s.run("editor.action.marker.next", None, 0);
    assert_eq!(cursor_line(&s), 2);
}

#[test]
fn navigation_reports_the_diagnostic_it_landed_on() {
    let mut s = with_diagnostics(&[]);
    s.set_diagnostics(vec![diagnostic(3, Severity::Error, "rustc[E0308]: mismatched types")]);
    s.run("editor.action.marker.next", None, 0);
    assert_eq!(s.status.as_deref(), Some("rustc[E0308]: mismatched types"));
}

#[test]
fn navigation_says_so_when_there_is_nothing_to_visit() {
    let mut s = with_diagnostics(&[]);
    let before = cursor_line(&s);
    s.run("editor.action.marker.next", None, 0);
    assert_eq!(cursor_line(&s), before, "the cursor must not move");
    assert_eq!(s.status.as_deref(), Some("no problems in this file"));
}

#[test]
fn a_diagnostic_past_the_end_of_the_file_is_clamped() {
    // A server can lag behind edits. If the user deletes the lines before it
    // recomputes, its ranges refer to text that no longer exists.
    let mut s = session();
    s.open(PathBuf::from("/w/a.rs"), "one\ntwo\n");
    s.set_diagnostics(vec![diagnostic(900, Severity::Error, "stale")]);
    s.run("editor.action.marker.next", None, 0);
    assert!(
        cursor_line(&s) <= 2,
        "the cursor landed outside the document: {}",
        cursor_line(&s)
    );
}

#[test]
fn the_diagnostics_under_the_cursor_come_back_worst_first() {
    let mut s = with_diagnostics(&[]);
    s.set_diagnostics(vec![
        diagnostic(3, Severity::Hint, "hint"),
        diagnostic(3, Severity::Error, "error"),
        diagnostic(8, Severity::Error, "elsewhere"),
    ]);
    let hits = s.diagnostics_at(Position::new(3, 1));
    assert_eq!(hits.len(), 2);
    assert_eq!(hits[0].label, "error");
}

#[test]
fn counts_tally_by_severity() {
    let mut s = with_diagnostics(&[]);
    s.set_diagnostics(vec![
        diagnostic(1, Severity::Error, "a"),
        diagnostic(2, Severity::Error, "b"),
        diagnostic(3, Severity::Warning, "c"),
        diagnostic(4, Severity::Hint, "d"),
    ]);
    let counts = s.diagnostic_counts();
    assert_eq!(counts.errors, 2);
    assert_eq!(counts.warnings, 1);
    assert_eq!(counts.hints, 1);
    assert_eq!(counts.errors + counts.warnings + counts.information + counts.hints, 4);
}

#[test]
fn f8_is_bound_by_default() {
    let mut s = with_diagnostics(&[4]);
    press(&mut s, "f8");
    assert_eq!(cursor_line(&s), 4);
}

#[test]
fn replacing_a_range_leaves_the_cursor_after_the_text() {
    // Where the caret goes after accepting a completion.
    let mut s = session();
    s.open(PathBuf::from("/w/a.rs"), "let x = Has;\n");
    let end = s.replace_range(Range::new(Position::new(0, 8), Position::new(0, 11)),
        "HashMap");
    assert_eq!(
        s.line(0),
        "let x = HashMap;"
    );
    assert_eq!(end, Position::new(0, 15));
    assert_eq!(s.caret(), end);
    assert!(s.active.document.dirty);
}

#[test]
fn replacing_a_range_is_one_undo_step() {
    // Accepting a completion is one action. Merging it with the word typed
    // before would make one undo remove both.
    let mut s = session();
    s.open(PathBuf::from("/w/a.rs"), "Has\n");
    s.replace_range(Range::new(Position::new(0, 0), Position::new(0, 3)),
        "HashMap");
    s.run("undo", None, 0);
    assert_eq!(s.line(0), "Has");
}

#[test]
fn replacing_with_multiline_text_puts_the_cursor_on_the_last_line() {
    let mut s = session();
    s.open(PathBuf::from("/w/a.rs"), "x\n");
    let end = s.replace_range(Range::new(Position::new(0, 0), Position::new(0, 1)),
        "if a {\n    b\n}");
    assert_eq!(end, Position::new(2, 1));
    assert_eq!(s.caret(), end);
}

#[test]
fn the_cursor_lands_correctly_after_text_outside_the_bmp() {
    // Positions count UTF-16 units, so an emoji advances the column by two.
    let mut s = session();
    s.open(PathBuf::from("/w/a.rs"), "\n");
    let end = s.replace_range(Range::new(Position::new(0, 0), Position::new(0, 0)),
        "ab🎉");
    assert_eq!(end.character, 4, "two units for the emoji");
}

#[test]
fn a_range_past_the_end_of_the_document_is_clamped() {
    // The range may have been computed against text the user has since
    // changed, such as a completion returned while typing continued.
    let mut s = session();
    s.open(PathBuf::from("/w/a.rs"), "ab\n");
    s.replace_range(Range::new(Position::new(0, 1), Position::new(99, 99)),
        "Z");
    assert_eq!(s.line(0), "aZ");
}

#[test]
fn an_empty_range_inserts_without_deleting() {
    let mut s = session();
    s.open(PathBuf::from("/w/a.rs"), "ac\n");
    s.replace_range(empty_at(Position::new(0, 1)),
        "b");
    assert_eq!(s.line(0), "abc");
}

fn edit(line: u32, from: u32, to: u32, text: &str) -> TextEdit {
    TextEdit {
        range: Range::new(Position::new(line, from), Position::new(line, to)),
        new_text: text.to_owned(),
    }
}

#[test]
fn edits_are_applied_back_to_front_whatever_order_they_arrive_in() {
    // Every range refers to the document the server saw, and applying the
    // edits front to back would shift every position after the first edit.
    // The edits are intentionally given out of order.
    let mut s = session();
    s.open(PathBuf::from("/w/a.rs"), "aaaa bbbb cccc\n");
    let applied = s
        .apply_edits(vec![
                edit(0, 10, 14, "THREE"),
                edit(0, 0, 4, "ONE"),
                edit(0, 5, 9, "TWO"),
            ])
        .unwrap();

    assert_eq!(applied, 3);
    assert_eq!(s.line(0), "ONE TWO THREE");
}

#[test]
fn a_whole_batch_is_one_undo_step() {
    // Formatting is one action. Undoing it one edit at a time would be
    // impractical on a file the server reformatted.
    let mut s = session();
    s.open(PathBuf::from("/w/a.rs"), "aaaa bbbb\n");
    s.apply_edits(vec![edit(0, 0, 4, "x"), edit(0, 5, 9, "y")])
        .unwrap();
    assert_eq!(s.line(0), "x y");

    s.run("undo", None, 0);
    assert_eq!(s.line(0), "aaaa bbbb");
}

#[test]
fn edits_spanning_lines_are_applied_correctly() {
    let mut s = session();
    s.open(PathBuf::from("/w/a.rs"), "one\ntwo\nthree\nfour\n");
    s.apply_edits(vec![
            TextEdit {
                range: Range::new(
                    Position::new(2, 0),
                    Position::new(3, 4),
                ),
                new_text: "THREE-FOUR".into(),
            },
            edit(0, 0, 3, "ONE"),
        ])
    .unwrap();
    assert_eq!(s.line(0), "ONE");
    assert_eq!(s.line(2), "THREE-FOUR");
}

#[test]
fn an_already_formatted_document_is_left_alone() {
    // Servers answer with a no-op edit here. Applying it would mark the file
    // dirty and add an empty undo step.
    let mut s = session();
    s.open(PathBuf::from("/w/a.rs"), "fine\n");
    let applied = s.apply_edits(vec![edit(0, 2, 2, "")]).unwrap();
    assert_eq!(applied, 0);
    assert!(!s.active.document.dirty, "nothing changed, so nothing is dirty");
}

#[test]
fn an_empty_edit_list_changes_nothing() {
    let mut s = session();
    s.open(PathBuf::from("/w/a.rs"), "fine\n");
    assert_eq!(s.apply_edits(vec![]).unwrap(), 0);
    assert!(!s.active.document.dirty);
}

#[test]
fn overlapping_edits_are_refused_and_the_file_is_untouched() {
    // Reject the entire overlapping batch and preserve the original text.
    let mut s = session();
    s.open(PathBuf::from("/w/a.rs"), "aaaa bbbb\n");
    assert_eq!(
        s.apply_edits(vec![edit(0, 0, 6, "x"), edit(0, 4, 9, "y")]),
        Err(EditError::Overlapping)
    );
    assert_eq!(s.line(0), "aaaa bbbb");
    assert!(!s.active.document.dirty);
}

#[test]
fn the_cursor_stays_where_it_was_rather_than_following_the_edits() {
    // Formatting must not move the caret to the end of the file.
    let mut s = session();
    s.open(PathBuf::from("/w/a.rs"), "one\ntwo\nthree\n");
    s.active.view.selections = SelectionSet::caret(Position::new(1, 2));
    s.apply_edits(vec![edit(0, 0, 3, "ONE")]).unwrap();
    assert_eq!(s.caret(), Position::new(1, 2));
}

#[test]
fn a_cursor_past_the_end_of_the_reformatted_text_is_clamped() {
    let mut s = session();
    s.open(PathBuf::from("/w/a.rs"), "a long line here\n");
    s.active.view.selections = SelectionSet::caret(Position::new(0, 15));
    s.apply_edits(vec![edit(0, 0, 16, "short")]).unwrap();
    let cursor = s.caret();
    assert!(cursor.character <= 5, "cursor at {cursor:?}");
}

#[test]
fn an_edit_range_past_the_end_of_the_document_is_clamped() {
    // The server's response may refer to text the user has since deleted.
    let mut s = session();
    s.open(PathBuf::from("/w/a.rs"), "ab\n");
    s.apply_edits(vec![edit(0, 1, 99, "Z")]).unwrap();
    assert_eq!(s.line(0), "aZ");
}

#[test]
fn formatting_options_come_from_the_users_own_settings() {
    // Without these options a server uses its own defaults. In a project
    // with different settings, formatting would then change every line.
    let mut s = configured(EditorSettings {
        tab_size: 2,
        insert_spaces: false,
        insert_final_newline: true,
        ..plain()
    });
    s.open(PathBuf::from("/w/a.rs"), "x\n");

    let options = s.formatting_options();
    assert_eq!(options.tab_size, 2);
    assert!(!options.insert_spaces);
    assert!(options.insert_final_newline);
}

#[test]
fn format_commands_are_routed_to_the_frontend() {
    // The core has no language server. Listing the commands by name keeps a
    // mistyped binding reported as unknown.
    let mut s = session();
    assert_eq!(
        s.run("editor.action.formatDocument", None, 0),
        Outcome::Frontend("editor.action.formatDocument".into())
    );
    assert_eq!(
        s.run("editor.action.formatSelection", None, 0),
        Outcome::Frontend("editor.action.formatSelection".into())
    );
    assert_eq!(s.run("editor.action.nonsense", None, 0), Outcome::NotFound);
}

// ---- The find bar ---------------------------------------------------

/// A session holding `text`, with the caret at the start.
fn searchable(text: &str) -> Editor {
    let mut s = session();
    s.open(PathBuf::from("/w/a.txt"), text);
    s.resize(80, 10);
    s
}

/// The primary selection as `(line, start)..(line, end)`.
fn selected(s: &Editor) -> ((u32, u32), (u32, u32)) {
    let primary = s.primary();
    (
        (primary.start.line, primary.start.character),
        (primary.end.line, primary.end.character),
    )
}

#[test]
fn ctrl_f_opens_the_find_bar() {
    let mut s = searchable("foo\n");
    press(&mut s, "ctrl+f");
    assert!(s.active.find.visible);
}

#[test]
fn typing_with_the_bar_open_goes_into_the_query_not_the_document() {
    let mut s = searchable("foo bar\n");
    press(&mut s, "ctrl+f");
    for key in ["b", "a", "r"] {
        press(&mut s, key);
    }
    assert_eq!(s.active.find.query, "bar");
    assert_eq!(
        s.text(),
        "foo bar\n",
        "the document must be untouched"
    );
}

#[test]
fn typing_selects_the_first_match_from_the_search_origin() {
    let mut s = searchable("xx\nfoo\nfoo\n");
    press(&mut s, "ctrl+f");
    for key in ["f", "o", "o"] {
        press(&mut s, key);
    }
    // The first match, not the third: narrowing the query must not move the
    // cursor down the file on each keystroke.
    assert_eq!(selected(&s), ((1, 0), (1, 3)));
}

#[test]
fn backspace_edits_the_query_and_leaves_the_document_alone() {
    let mut s = searchable("foo\n");
    press(&mut s, "ctrl+f");
    press(&mut s, "f");
    press(&mut s, "x");
    press(&mut s, "backspace");
    assert_eq!(s.active.find.query, "f");
    assert_eq!(s.text(), "foo\n");
}

#[test]
fn ctrl_v_pastes_into_the_query_not_the_document() {
    let mut s = searchable("foo\n");
    s.clipboard = "foo".to_owned();
    press(&mut s, "ctrl+f");
    press(&mut s, "ctrl+v");
    assert_eq!(s.active.find.query, "foo");
    assert_eq!(s.text(), "foo\n");
}

#[test]
fn undo_cannot_rewrite_the_document_from_behind_an_open_find_bar() {
    let mut s = searchable("");
    for key in ["h", "i"] {
        press(&mut s, key);
    }
    assert_eq!(s.text(), "hi");
    press(&mut s, "ctrl+f");
    press(&mut s, "ctrl+z");
    assert_eq!(
        s.text(),
        "hi",
        "the user was looking at the find bar"
    );
}

#[test]
fn tab_does_not_indent_the_document_while_the_bar_is_open() {
    // `tab` is gated on `editorTextFocus`, which the find bar turns off.
    let mut s = searchable("x\n");
    press(&mut s, "ctrl+f");
    press(&mut s, "tab");
    assert_eq!(s.text(), "x\n");
}

#[test]
fn ctrl_f_seeds_the_query_from_the_selection() {
    let mut s = searchable("hello world\n");
    s.active.view.selections = SelectionSet::single(
        Selection::new(Position::new(0, 6), Position::new(0, 11)),
    );
    press(&mut s, "ctrl+f");
    assert_eq!(s.active.find.query, "world");
    // Seeding from a selection leaves that same occurrence current rather
    // than skipping to the next one.
    assert_eq!(selected(&s), ((0, 6), (0, 11)));
}

#[test]
fn pressing_ctrl_f_again_does_not_wipe_the_query() {
    let mut s = searchable("foo\n");
    press(&mut s, "ctrl+f");
    press(&mut s, "f");
    press(&mut s, "ctrl+f");
    assert_eq!(s.active.find.query, "f");
}

#[test]
fn enter_goes_to_the_next_match_rather_than_inserting_a_newline() {
    let mut s = searchable("foo\nfoo\n");
    press(&mut s, "ctrl+f");
    for key in ["f", "o", "o"] {
        press(&mut s, key);
    }
    assert_eq!(selected(&s), ((0, 0), (0, 3)));
    press(&mut s, "enter");
    assert_eq!(selected(&s), ((1, 0), (1, 3)));
    assert_eq!(s.text(), "foo\nfoo\n");
}

#[test]
fn shift_enter_goes_to_the_previous_match() {
    let mut s = searchable("foo\nfoo\n");
    press(&mut s, "ctrl+f");
    for key in ["f", "o", "o"] {
        press(&mut s, key);
    }
    press(&mut s, "shift+enter");
    assert_eq!(selected(&s), ((1, 0), (1, 3)), "wrapped to the last match");
}

#[test]
fn f3_walks_forward_and_wraps() {
    let mut s = searchable("foo\nfoo\n");
    press(&mut s, "ctrl+f");
    for key in ["f", "o", "o"] {
        press(&mut s, key);
    }
    press(&mut s, "f3");
    assert_eq!(selected(&s), ((1, 0), (1, 3)));
    press(&mut s, "f3");
    assert_eq!(selected(&s), ((0, 0), (0, 3)), "wrapped to the first match");
}

#[test]
fn f3_with_no_query_searches_for_the_word_under_the_cursor() {
    let mut s = searchable("foo bar\nfoo\n");
    press(&mut s, "f3");
    assert_eq!(s.active.find.query, "foo");
    assert_eq!(selected(&s), ((1, 0), (1, 3)));
    assert!(!s.active.find.visible, "F3 does not open the bar");
}

#[test]
fn f3_with_nothing_to_search_for_says_so() {
    let mut s = searchable("   \n");
    s.active.view.selections = SelectionSet::caret(Position::new(0, 1));
    assert_eq!(
        press(&mut s, "f3"),
        Outcome::Message("nothing to search for".to_owned())
    );
}

#[test]
fn f3_reports_where_it_landed_while_the_bar_is_closed() {
    let mut s = searchable("foo\nfoo\n");
    // The bar is closed, so the count is shown in the status bar.
    let outcome = press(&mut s, "f3");
    assert_eq!(outcome, Outcome::Message("2 of 2 for `foo`".to_owned()));
}

#[test]
fn a_query_matching_nothing_says_so_and_leaves_the_cursor_alone() {
    let mut s = searchable("foo\n");
    s.active.find.query = "zzz".to_owned();
    let before = selected(&s);
    assert_eq!(
        press(&mut s, "f3"),
        Outcome::Message("no results for `zzz`".to_owned())
    );
    assert_eq!(selected(&s), before);
}

#[test]
fn escape_closes_the_bar_and_keeps_the_query_for_f3() {
    let mut s = searchable("foo\nfoo\n");
    press(&mut s, "ctrl+f");
    for key in ["f", "o", "o"] {
        press(&mut s, key);
    }
    press(&mut s, "escape");
    assert!(!s.active.find.visible);
    assert_eq!(s.active.find.query, "foo");
    assert!(s.active.find.matches.is_empty(), "no stale highlight");
    // And F3 still knows what to look for.
    press(&mut s, "f3");
    assert_eq!(selected(&s), ((1, 0), (1, 3)));
}

#[test]
fn typing_reaches_the_document_again_once_the_bar_is_closed() {
    let mut s = searchable("");
    press(&mut s, "ctrl+f");
    press(&mut s, "x");
    press(&mut s, "escape");
    press(&mut s, "y");
    assert_eq!(s.text(), "y");
    assert_eq!(s.active.find.query, "x");
}

#[test]
fn alt_c_toggles_case_sensitivity_and_re_searches() {
    let mut s = searchable("FOO\nfoo\n");
    press(&mut s, "ctrl+f");
    for key in ["f", "o", "o"] {
        press(&mut s, key);
    }
    assert_eq!(s.active.find.matches.len(), 2, "case-insensitive to begin with");
    press(&mut s, "alt+c");
    assert!(s.active.find.options.case_sensitive);
    assert_eq!(s.active.find.matches.len(), 1);
    assert_eq!(selected(&s), ((1, 0), (1, 3)));
}

#[test]
fn alt_w_toggles_whole_word_and_re_searches() {
    let mut s = searchable("foobar\nfoo\n");
    press(&mut s, "ctrl+f");
    for key in ["f", "o", "o"] {
        press(&mut s, key);
    }
    assert_eq!(s.active.find.matches.len(), 2);
    press(&mut s, "alt+w");
    assert!(s.active.find.options.whole_word);
    assert_eq!(s.active.find.matches.len(), 1);
}

/// Types `text` into whichever input has the keyboard.
fn type_into(s: &mut Editor, text: &str) {
    s.dispatch("type", Some(text), 0);
}

#[test]
fn alt_r_toggles_regex_and_re_searches() {
    let mut s = searchable("foo fooo f.o\n");
    press(&mut s, "ctrl+f");
    type_into(&mut s, "fo+");
    assert!(
        s.active.find.matches.is_empty(),
        "literal `fo+` is not in the text"
    );
    assert_eq!(press(&mut s, "alt+r"), Outcome::Handled);
    assert!(s.active.find.options.regex);
    assert_eq!(s.active.find.matches.len(), 2);
    assert_eq!(selected(&s), ((0, 0), (0, 3)));
    press(&mut s, "alt+r");
    assert!(!s.active.find.options.regex);
    assert!(s.active.find.matches.is_empty());
}

#[test]
fn an_invalid_regex_is_reported_rather_than_shown_as_no_results() {
    let mut s = searchable("(foo\n");
    press(&mut s, "ctrl+f");
    press(&mut s, "alt+r");
    type_into(&mut s, "(foo");
    assert!(s.active.find.matches.is_empty());
    assert!(s.active.find.error.is_some());
    let Outcome::Message(message) = press(&mut s, "enter") else {
        panic!("stepping should report the error");
    };
    assert!(
        message.starts_with("invalid regular expression"),
        "{message}"
    );
}

#[test]
fn a_seed_is_escaped_in_regex_mode() {
    let mut s = searchable("a.b axb a.b\n");
    press(&mut s, "ctrl+f");
    press(&mut s, "alt+r");
    press(&mut s, "escape");
    s.active.view.selections = SelectionSet::single(Selection::new(
        Position::new(0, 0),
        Position::new(0, 3),
    ));
    press(&mut s, "ctrl+f");
    assert_eq!(s.active.find.query, r"a\.b");
    assert_eq!(s.active.find.matches.len(), 2);
}

#[test]
fn replace_all_expands_capture_groups_per_match_in_one_step() {
    let mut s = searchable("a=1\nb=2\n");
    press(&mut s, "ctrl+h");
    press(&mut s, "alt+r");
    type_into(&mut s, r"(\w)=(\d)");
    press(&mut s, "tab");
    type_into(&mut s, "$2=$1");
    assert_eq!(
        s.run("editor.action.replaceAll", None, 0),
        Outcome::Message("replaced 2 occurrences".to_owned())
    );
    assert_eq!(s.text(), "1=a\n2=b\n");
    s.run("undo", None, 0);
    assert_eq!(s.text(), "a=1\nb=2\n");
}

#[test]
fn replace_one_expands_capture_groups_for_the_selected_match() {
    let mut s = searchable("a=1\nb=2\n");
    press(&mut s, "ctrl+h");
    press(&mut s, "alt+r");
    type_into(&mut s, r"(\w)=(\d)");
    press(&mut s, "tab");
    type_into(&mut s, "$2");
    s.run("editor.action.replaceOne", None, 0);
    assert_eq!(s.text(), "1\nb=2\n");
    assert_eq!(selected(&s), ((1, 0), (1, 3)), "the next match is selected");
}

#[test]
fn an_invalid_regex_in_a_project_search_is_reported_before_searching() {
    let mut s = searchable("x\n");
    s.run("workbench.action.findInFiles", None, 0);
    press(&mut s, "alt+r");
    assert_eq!(
        s.status.as_deref(),
        Some("Search: case off, whole word off, regex on")
    );
    press(&mut s, "ctrl+x");
    type_into(&mut s, "(x");
    let Outcome::Message(message) = press(&mut s, "enter") else {
        panic!("an invalid pattern should not reach the frontend");
    };
    assert!(
        message.starts_with("invalid regular expression"),
        "{message}"
    );
}

#[test]
fn the_context_keys_follow_the_find_bar() {
    let mut s = searchable("foo\n");
    assert_eq!(s.context.find_widget_visible, false);
    assert_eq!(s.context.editor_text_focus, true);

    press(&mut s, "ctrl+f");
    assert_eq!(s.context.find_widget_visible, true);
    assert_eq!(s.context.find_input_focussed, true);
    assert_eq!(s.context.editor_text_focus, false);
    assert_eq!(
        s.context.text_input_focus, true,
        "the find box is still a text input"
    );

    press(&mut s, "escape");
    assert_eq!(s.context.find_widget_visible, false);
    assert_eq!(s.context.editor_text_focus, true);
}

// ---- Replace --------------------------------------------------------

/// Presses every key in `keys`, in order.
fn press_all(s: &mut Editor, keys: &[&str]) {
    for key in keys {
        press(s, key);
    }
}

#[test]
fn ctrl_h_opens_the_bar_focused_on_the_query_when_there_is_none_yet() {
    // Nothing selected and nothing searched for, so there is nothing to
    // replace and the first thing typed is the query.
    let mut s = searchable("foo\n");
    press(&mut s, "ctrl+h");
    assert!(s.active.find.visible);
    assert!(s.active.find.replacing, "the replacement row is still shown");
    assert_eq!(s.active.find.field, Field::Query);
    assert_eq!(s.context.find_input_focussed, true);
    assert_eq!(s.context.replace_input_focussed, false);
}

#[test]
fn ctrl_h_opens_the_bar_with_the_replacement_focused_once_there_is_a_query() {
    let mut s = searchable("foo\n");
    s.active.view.selections = SelectionSet::single(
        Selection::new(Position::new(0, 0), Position::new(0, 3)),
    );
    press(&mut s, "ctrl+h");
    assert_eq!(s.active.find.query, "foo");
    assert_eq!(s.active.find.field, Field::Replace);
    assert_eq!(s.context.replace_input_focussed, true);
    assert_eq!(s.context.find_input_focussed, false);
}

#[test]
fn ctrl_h_focuses_the_replacement_when_a_query_was_typed_earlier() {
    // The query survives `close`, so a second `ctrl+h` still has something to
    // replace even though nothing is selected.
    let mut s = searchable("foo\n");
    press(&mut s, "ctrl+f");
    press_all(&mut s, &["f", "o", "o"]);
    press(&mut s, "escape");
    press(&mut s, "ctrl+h");
    assert_eq!(s.active.find.field, Field::Replace);
}

#[test]
fn ctrl_h_seeds_the_query_from_the_selection_like_ctrl_f_does() {
    let mut s = searchable("hello world\n");
    s.active.view.selections = SelectionSet::single(
        Selection::new(Position::new(0, 6), Position::new(0, 11)),
    );
    press(&mut s, "ctrl+h");
    assert_eq!(s.active.find.query, "world");
}

#[test]
fn typing_with_the_replacement_focused_goes_into_the_replacement() {
    let mut s = searchable("foo\n");
    press(&mut s, "ctrl+h");
    press_all(&mut s, &["f", "o", "o"]);
    press(&mut s, "tab");
    press_all(&mut s, &["b", "a", "r"]);
    assert_eq!(s.active.find.replace, "bar");
    assert_eq!(s.active.find.query, "foo", "the query is untouched");
    assert_eq!(s.text(), "foo\n");
}

#[test]
fn tab_moves_between_the_two_inputs() {
    let mut s = searchable("foo\n");
    press(&mut s, "ctrl+f");
    press_all(&mut s, &["f", "o", "o"]);
    press(&mut s, "tab");
    assert_eq!(s.active.find.field, Field::Replace);
    press_all(&mut s, &["b", "a", "r"]);
    press(&mut s, "shift+tab");
    assert_eq!(s.active.find.field, Field::Query);
    // Each input kept its own text and its own caret.
    assert_eq!(s.active.find.query, "foo");
    assert_eq!(s.active.find.replace, "bar");
    // And typing now lands back in the query.
    press(&mut s, "x");
    assert_eq!(s.active.find.query, "foox");
    assert_eq!(s.active.find.replace, "bar");
}

#[test]
fn tab_opens_the_replacement_row_from_a_plain_find_bar() {
    let mut s = searchable("foo\n");
    press(&mut s, "ctrl+f");
    assert!(!s.active.find.replacing);
    press(&mut s, "tab");
    assert!(s.active.find.replacing);
}

#[test]
fn enter_replaces_the_current_match_and_moves_on() {
    let mut s = searchable("foo foo\n");
    press(&mut s, "ctrl+h");
    press_all(&mut s, &["f", "o", "o"]);
    press(&mut s, "tab");
    press_all(&mut s, &["b", "a", "r"]);
    // The first match is current.
    assert_eq!(selected(&s), ((0, 0), (0, 3)));
    press(&mut s, "enter");
    assert_eq!(s.text(), "bar foo\n");
    // And the next match — which has moved — is now current.
    assert_eq!(selected(&s), ((0, 4), (0, 7)));
    press(&mut s, "enter");
    assert_eq!(s.text(), "bar bar\n");
}

#[test]
fn a_replacement_is_one_undo_step() {
    let mut s = searchable("foo foo\n");
    press(&mut s, "ctrl+h");
    press_all(&mut s, &["f", "o", "o"]);
    press(&mut s, "tab");
    press_all(&mut s, &["b", "a", "r"]);
    press(&mut s, "enter");
    assert_eq!(s.text(), "bar foo\n");
    s.run("undo", None, 0);
    assert_eq!(s.text(), "foo foo\n");
}

#[test]
fn replacing_from_somewhere_that_is_not_a_match_steps_onto_one_first() {
    let mut s = searchable("xx\nfoo\n");
    s.active.find.query = "foo".to_owned();
    // The cursor is on line 0, which is not a match.
    s.run("editor.action.replaceOne", None, 0);
    assert_eq!(
        s.text(),
        "xx\nfoo\n",
        "nothing should have been replaced yet"
    );
    assert_eq!(selected(&s), ((1, 0), (1, 3)));
    // The second press replaces the match, which is now visible.
    s.run("editor.action.replaceOne", None, 0);
    assert_eq!(s.text(), "xx\n\n");
}

#[test]
fn an_empty_replacement_deletes_the_match() {
    let mut s = searchable("foo bar\n");
    s.active.find.query = "foo ".to_owned();
    s.run("editor.action.replaceOne", None, 0);
    s.run("editor.action.replaceOne", None, 0);
    assert_eq!(s.text(), "bar\n");
}

#[test]
fn replace_all_changes_every_match_in_one_step() {
    let mut s = searchable("foo\nbar\nfoo\n");
    press(&mut s, "ctrl+h");
    press_all(&mut s, &["f", "o", "o"]);
    press(&mut s, "tab");
    press_all(&mut s, &["b", "a", "z"]);
    let outcome = s.run("editor.action.replaceAll", None, 0);
    assert_eq!(s.text(), "baz\nbar\nbaz\n");
    assert_eq!(
        outcome,
        Outcome::Message("replaced 2 occurrences".to_owned())
    );
    s.run("undo", None, 0);
    assert_eq!(
        s.text(),
        "foo\nbar\nfoo\n",
        "one undo should put all of it back"
    );
}

#[test]
fn replace_all_counts_a_single_occurrence_in_the_singular() {
    let mut s = searchable("foo\n");
    s.active.find.query = "foo".to_owned();
    assert_eq!(
        s.run("editor.action.replaceAll", None, 0),
        Outcome::Message("replaced 1 occurrence".to_owned())
    );
}

#[test]
fn replace_all_handles_a_replacement_longer_than_what_it_replaces() {
    // Tests back-to-front application: applied in document order, every edit
    // after the first would be misplaced by the shifted positions.
    let mut s = searchable("a a a\n");
    s.active.find.query = "a".to_owned();
    press(&mut s, "ctrl+h");
    press_all(&mut s, &["l", "o", "n", "g"]);
    s.run("editor.action.replaceAll", None, 0);
    assert_eq!(s.text(), "long long long\n");
}

#[test]
fn replace_all_spanning_lines_lands_correctly() {
    let mut s = searchable("one\ntwo\none\n");
    s.active.find.query = "one".to_owned();
    press(&mut s, "ctrl+h");
    press_all(&mut s, &["x"]);
    s.run("editor.action.replaceAll", None, 0);
    assert_eq!(s.text(), "x\ntwo\nx\n");
}

#[test]
fn replacing_with_nothing_to_replace_says_so() {
    let mut s = searchable("foo\n");
    for command in ["editor.action.replaceOne", "editor.action.replaceAll"] {
        assert_eq!(
            s.run(command, None, 0),
            Outcome::Message("nothing to replace".to_owned()),
            "{command}"
        );
    }
}

#[test]
fn replacing_a_query_that_matches_nothing_says_so() {
    let mut s = searchable("foo\n");
    s.active.find.query = "zzz".to_owned();
    assert_eq!(
        s.run("editor.action.replaceAll", None, 0),
        Outcome::Message("no results for `zzz`".to_owned())
    );
    assert!(!s.active.document.dirty);
}

#[test]
fn replacing_text_with_itself_changes_nothing_and_says_why() {
    let mut s = searchable("foo\n");
    s.active.find.query = "foo".to_owned();
    press(&mut s, "ctrl+h");
    press_all(&mut s, &["f", "o", "o"]);
    assert_eq!(
        s.run("editor.action.replaceAll", None, 0),
        Outcome::Message("every match already reads `foo`".to_owned())
    );
    assert!(!s.active.document.dirty, "no undo step for a no-op");
}

#[test]
fn a_case_insensitive_replace_all_rewrites_the_differing_cases_only() {
    let mut s = searchable("foo FOO\n");
    s.active.find.query = "foo".to_owned();
    press(&mut s, "ctrl+h");
    press_all(&mut s, &["f", "o", "o"]);
    // `foo` already reads as the replacement; `FOO` does not.
    assert_eq!(
        s.run("editor.action.replaceAll", None, 0),
        Outcome::Message("replaced 1 occurrence".to_owned())
    );
    assert_eq!(s.text(), "foo foo\n");
}

#[test]
fn ctrl_alt_enter_replaces_everything_from_either_input() {
    let mut s = searchable("foo foo\n");
    press(&mut s, "ctrl+h");
    press_all(&mut s, &["f", "o", "o"]);
    press(&mut s, "tab");
    press_all(&mut s, &["b", "a", "r"]);
    press(&mut s, "shift+tab");
    // Still on the query, and the key works from here too.
    assert_eq!(s.active.find.field, Field::Query);
    press(&mut s, "ctrl+alt+enter");
    assert_eq!(s.text(), "bar bar\n");
}

#[test]
fn escape_closes_the_replacement_row_too() {
    let mut s = searchable("foo\n");
    press(&mut s, "ctrl+h");
    press(&mut s, "escape");
    assert!(!s.active.find.visible);
    assert!(!s.active.find.replacing);
    assert_eq!(s.context.replace_input_focussed, false);
}

#[test]
fn ctrl_f_after_ctrl_h_puts_the_keyboard_back_on_the_query() {
    let mut s = searchable("foo\n");
    press(&mut s, "ctrl+h");
    press(&mut s, "tab");
    press_all(&mut s, &["b", "a", "r"]);
    press(&mut s, "ctrl+f");
    assert_eq!(s.active.find.field, Field::Query);
    assert_eq!(
        s.active.find.replace,
        "bar",
        "the replacement is not thrown away"
    );
}

// ---- Quick open --------------------------------------------------------

fn file_entries(paths: &[&str]) -> Vec<PaletteEntry> {
    paths
        .iter()
        .map(|path| PaletteEntry::new(&format!("/w/{path}"), path))
        .collect()
}

#[test]
fn ctrl_p_asks_the_frontend_for_the_file_list() {
    // The core has no filesystem, so it cannot build the list itself.
    let mut s = searchable("x\n");
    assert_eq!(
        press(&mut s, "ctrl+p"),
        Outcome::Frontend("workbench.action.quickOpen".to_owned())
    );
    assert!(s.prompt.is_none(), "the prompt waits for the list");
}

#[test]
fn offering_files_opens_a_filtered_prompt() {
    let mut s = searchable("x\n");
    s.offer_files(file_entries(&["src/main.rs", "src/lib.rs", "README.md"]));
    let prompt = s.prompt.as_ref().expect("a prompt should be open");
    assert_eq!(prompt.kind(), PromptKind::Files);
    assert_eq!(prompt.matches(), 3);
    assert_eq!(s.context.in_quick_open, true);
}

#[test]
fn typing_narrows_the_file_list_by_name_then_by_path() {
    let mut s = searchable("x\n");
    s.offer_files(file_entries(&[
        "src/main.rs",
        "docs/main.md",
        "src/other.rs",
    ]));
    for c in "main".chars() {
        press(&mut s, &c.to_string());
    }
    assert_eq!(s.prompt.as_ref().unwrap().matches(), 2);
}

#[test]
fn the_files_you_have_had_open_come_first() {
    // The wanted file is usually one that was recently open, so recent files
    // are listed before the alphabetical list.
    let mut s = session();
    s.open(PathBuf::from("/w/zebra.rs"), "z\n");
    s.open(PathBuf::from("/w/apple.rs"), "a\n");

    s.offer_files(file_entries(&[
        "aardvark.rs",
        "apple.rs",
        "middle.rs",
        "zebra.rs",
    ]));
    assert_eq!(
        titles(&s),
        ["apple.rs", "zebra.rs", "aardvark.rs", "middle.rs"],
        "the two that were open, most recent first, then the alphabet"
    );
}

#[test]
fn a_tab_switch_moves_a_file_back_to_the_front() {
    let mut s = session();
    s.open(PathBuf::from("/w/one.rs"), "1\n");
    s.open(PathBuf::from("/w/two.rs"), "2\n");
    s.run("workbench.action.previousEditor", None, 0);
    assert_eq!(s.title(), "one.rs");

    s.offer_files(file_entries(&["one.rs", "two.rs"]));
    assert_eq!(titles(&s), ["one.rs", "two.rs"]);
}

#[test]
fn a_file_that_was_closed_is_still_remembered() {
    let mut s = session();
    s.open(PathBuf::from("/w/gone.rs"), "g\n");
    s.open(PathBuf::from("/w/here.rs"), "h\n");
    s.run("workbench.action.previousEditor", None, 0);
    s.run("workbench.action.closeActiveEditor", None, 0);
    assert_eq!(s.title(), "here.rs");

    s.offer_files(file_entries(&["aaa.rs", "gone.rs", "here.rs"]));
    assert_eq!(titles(&s), ["here.rs", "gone.rs", "aaa.rs"]);
}

#[test]
fn a_session_that_has_opened_nothing_lists_alphabetically() {
    // With no recent files, the order is alphabetical.
    let mut s = session();
    s.offer_files(file_entries(&["aaa.rs", "bbb.rs", "ccc.rs"]));
    assert_eq!(titles(&s), ["aaa.rs", "bbb.rs", "ccc.rs"]);
}

#[test]
fn a_path_spelled_differently_is_still_the_same_file() {
    // `ctrl+o` resolves the typed path, and the walk joins onto the workspace
    // root. They can differ in `./`, and a string comparison would not
    // recognise the file as recent.
    let mut s = session();
    s.open(PathBuf::from("/w/./src/../src/main.rs"), "m\n");
    s.offer_files(file_entries(&["aaa.rs", "src/main.rs"]));
    assert_eq!(titles(&s), ["src/main.rs", "aaa.rs"]);
}

#[test]
fn recency_orders_equal_matches_and_no_more_than_that() {
    // Two rows match `main` equally well, so recency decides the order.
    let mut s = session();
    s.open(PathBuf::from("/w/main.md"), "d\n");
    s.offer_files(file_entries(&["main.rs", "main.md"]));
    for c in "main".chars() {
        press(&mut s, &c.to_string());
    }
    assert_eq!(titles(&s), ["main.md", "main.rs"], "the recent one first");
}

#[test]
fn a_better_match_still_beats_a_recent_one() {
    // Recency orders equal matches only. It does not override match quality.
    // Here `main.rs` matches `main` as a prefix, `domain.rs` only contains it,
    // and `domain.rs` is the file that was open.
    let mut s = session();
    s.open(PathBuf::from("/w/domain.rs"), "d\n");
    s.offer_files(file_entries(&["main.rs", "domain.rs"]));
    for c in "main".chars() {
        press(&mut s, &c.to_string());
    }
    assert_eq!(titles(&s), ["main.rs", "domain.rs"]);
}

/// The titles the open prompt is offering, in order.
fn titles(s: &Editor) -> Vec<String> {
    let prompt = s.prompt.as_ref().expect("a prompt should be open");
    prompt
        .visible()
        .iter()
        .map(|entry| entry.title.clone())
        .collect()
}

#[test]
fn accepting_a_file_asks_the_frontend_to_open_it() {
    let mut s = searchable("x\n");
    s.offer_files(file_entries(&["src/main.rs", "README.md"]));
    for c in "readme".chars() {
        press(&mut s, &c.to_string());
    }
    assert_eq!(
        press(&mut s, "enter"),
        Outcome::OpenFile {
            path: PathBuf::from("/w/README.md"),
            at: None,
        }
    );
    assert!(s.prompt.is_none());
}

#[test]
fn accepting_nothing_says_so_rather_than_closing_quietly() {
    let mut s = searchable("x\n");
    s.offer_files(file_entries(&["src/main.rs"]));
    for c in "zzzz".chars() {
        press(&mut s, &c.to_string());
    }
    assert_eq!(
        press(&mut s, "enter"),
        Outcome::Message("no file matches `zzzz`".to_owned())
    );
}

#[test]
fn an_empty_workspace_says_so_instead_of_opening_an_empty_list() {
    let mut s = searchable("x\n");
    s.offer_files(Vec::new());
    assert!(s.prompt.is_none());
    assert_eq!(s.status.as_deref(), Some("no files found here"));
}

#[test]
fn typing_in_the_file_prompt_never_reaches_the_document() {
    let mut s = searchable("x\n");
    s.offer_files(file_entries(&["a.rs"]));
    for key in ["a", "backspace", "ctrl+z"] {
        press(&mut s, key);
    }
    assert_eq!(s.text(), "x\n");
}

// ---- Detected indentation ----------------------------------------------

#[test]
fn opening_a_two_space_file_indents_by_two_whatever_the_setting_says() {
    // `editor.detectIndentation` is on by default, so the first `tab` in a
    // project with different indentation uses the file's indentation.
    let mut s = configured(EditorSettings { tab_size: 4, ..plain() });
    s.open(
        PathBuf::from("/w/a.ts"),
        "const a = {\n  b: {\n    c: 1,\n  },\n};\n",
    );

    assert_eq!(s.active.document.settings.tab_size, 2);
    assert!(s.active.document.indentation_overridden, "and it says so");

    s.active.view.selections = SelectionSet::caret(Position::new(4, 0));
    press(&mut s, "tab");
    assert_eq!(
        s.line(4),
        "  };",
        "two, not four"
    );
}

#[test]
fn a_file_that_agrees_with_the_setting_overrides_nothing() {
    // The status bar then shows no override, which is the case for most files.
    let mut s = configured(EditorSettings { tab_size: 2, ..plain() });
    s.open(PathBuf::from("/w/a.ts"), "a\n  b\n    c\n");
    assert_eq!(s.active.document.settings.tab_size, 2);
    assert!(!s.active.document.indentation_overridden);
}

#[test]
fn a_tab_indented_file_switches_to_tabs_and_keeps_the_settings_width() {
    // `editor.tabSize` sets the drawn tab width. The file only indicates that
    // it uses tabs.
    let mut s = configured(EditorSettings { tab_size: 8, insert_spaces: true, ..plain() });
    s.open(PathBuf::from("/w/a.go"), "func a() {\n\tb()\n}\n");

    assert!(!s.active.document.settings.insert_spaces);
    assert_eq!(s.active.document.settings.tab_size, 8);

    s.active.view.selections = SelectionSet::caret(Position::new(2, 0));
    press(&mut s, "tab");
    assert_eq!(
        s.line(2),
        "\t}",
        "a tab, not eight spaces"
    );
}

#[test]
fn detect_indentation_off_leaves_the_setting_alone() {
    let mut s = configured(EditorSettings { tab_size: 4, detect_indentation: false, ..plain() });
    s.open(PathBuf::from("/w/a.ts"), "a\n  b\n    c\n");
    assert_eq!(s.active.document.settings.tab_size, 4);
    assert!(!s.active.document.indentation_overridden);
}

#[test]
fn a_language_change_does_not_lose_what_the_file_said() {
    // `ctrl+k m` resolves the settings from scratch, but changing the
    // language does not change the file's indentation.
    let mut s = configured(EditorSettings { tab_size: 4, ..plain() });
    s.open(PathBuf::from("/w/a.txt"), "a\n  b\n    c\n");
    assert_eq!(s.active.document.settings.tab_size, 2);

    s.set_language(Some("markdown"));
    assert_eq!(s.active.document.settings.tab_size, 2, "still the file's answer");
}

#[test]
fn a_language_change_does_not_un_press_alt_z() {
    let mut s = session();
    s.open(PathBuf::from("/w/a.txt"), "x\n");
    s.resize(40, 8);
    press(&mut s, "alt+z");
    assert!(s.wrap_column() > 0);

    s.set_language(Some("markdown"));
    assert!(
        s.wrap_column() > 0,
        "the keyboard said so, and re-resolving must not un-say it"
    );
}

#[test]
fn workspace_settings_can_turn_the_detection_off_after_the_fact() {
    // The flag is read from the newly resolved settings, so a workspace layer
    // takes effect without reopening the file.
    let mut s = configured(EditorSettings { tab_size: 4, ..plain() });
    s.open(PathBuf::from("/w/a.ts"), "a\n  b\n    c\n");
    assert_eq!(s.active.document.settings.tab_size, 2);

    s.set_workspace_settings(EditorSettings {
        tab_size: 4,
        detect_indentation: false,
        ..plain()
    });
    assert_eq!(s.active.document.settings.tab_size, 4, "back to the setting");
    assert!(!s.active.document.indentation_overridden);
}

#[test]
fn an_unsupported_auto_save_value_reaches_the_problem_list() {
    // The frontend shows every entry, so the user learns that the setting has
    // no effect.
    let s = configured(EditorSettings {
        unsupported: Some("`files.autoSave` cannot be `onFocusChange`".to_owned()),
        ..plain()
    });
    assert_eq!(s.problems.len(), 1, "{:?}", s.problems);
    assert!(s.problems[0].contains("onFocusChange"), "{:?}", s.problems);
}

#[test]
fn the_same_complaint_is_not_made_twice() {
    // The settings are re-resolved on a language change, a rename and a new
    // workspace layer. Each must not add a duplicate problem.
    let mut s = configured(EditorSettings {
        unsupported: Some("`files.autoSave` cannot be `onWindowChange`".to_owned()),
        ..plain()
    });
    s.open(PathBuf::from("/w/a.rs"), "x\n");
    s.set_language(Some("markdown"));
    let settings = s.config.base.clone();
    s.set_workspace_settings(settings);
    assert_eq!(s.problems.len(), 1, "{:?}", s.problems);
}

#[test]
fn a_supported_auto_save_value_says_nothing() {
    let s = configured(plain());
    assert!(s.problems.is_empty(), "{:?}", s.problems);
}

// ---- Word wrap ---------------------------------------------------------

#[test]
fn alt_z_wraps_the_document_and_says_where() {
    // The message includes the column, because it is not visible from the
    // text and it is what the setting controls.
    let mut s = session();
    s.open(
        PathBuf::from("/w/a.md"),
        &format!("{}\n", "word ".repeat(30)),
    );
    s.resize(24, 8);
    assert_eq!(
        press(&mut s, "alt+z"),
        Outcome::Message("Word wrap on, at column 20".to_owned()),
        "24 columns less a four-column gutter"
    );
    assert_eq!(
        press(&mut s, "alt+z"),
        Outcome::Message("Word wrap off".to_owned())
    );
}

#[test]
fn toggling_back_on_restores_what_the_setting_asked_for() {
    // A user who configured `bounded` and pressed the key twice gets
    // `bounded` back, not wrapping at the window width.
    let mut s = configured(EditorSettings { word_wrap: WordWrap::Bounded, ..plain() });
    s.config.wrap_column = 12;
    s.open(PathBuf::from("/w/a.md"), "x\n");
    s.resize(80, 8);

    assert_eq!(
        s.active.document.settings.word_wrap,
        WordWrap::Bounded
    );
    press(&mut s, "alt+z");
    assert_eq!(s.active.document.settings.word_wrap, WordWrap::Off);
    press(&mut s, "alt+z");
    assert_eq!(
        s.active.document.settings.word_wrap,
        WordWrap::Bounded,
        "not `on`"
    );
    assert_eq!(s.wrap_column(), 12);
}

#[test]
fn a_language_override_of_word_wrap_is_what_the_toggle_restores() {
    let mut config = Config::of(plain());
    config.languages.push(("markdown", EditorSettings { word_wrap: WordWrap::On, ..plain() }));
    let mut s = Editor::new(config, Vec::new(), None);
    s.open(PathBuf::from("/w/a.md"), "x\n");
    s.resize(40, 8);
    assert!(
        s.wrap_column() > 0,
        "on for markdown"
    );
    press(&mut s, "alt+z");
    press(&mut s, "alt+z");
    assert_eq!(s.active.document.settings.word_wrap, WordWrap::On);
}

#[test]
fn word_wrap_is_per_tab() {
    // The settings are per document, so enabling wrap for one file does not
    // affect the code in the next tab.
    let mut s = session();
    s.open(PathBuf::from("/w/prose.md"), "x\n");
    s.open(PathBuf::from("/w/main.rs"), "y\n");
    s.resize(40, 8);

    s.run("workbench.action.previousEditor", None, 0);
    assert_eq!(s.title(), "prose.md");
    press(&mut s, "alt+z");
    assert!(s.wrap_column() > 0);

    s.run("workbench.action.nextEditor", None, 0);
    assert_eq!(s.title(), "main.rs");
    assert_eq!(
        s.wrap_column(),
        0,
        "the other tab is untouched"
    );

    s.run("workbench.action.previousEditor", None, 0);
    assert!(
        s.wrap_column() > 0,
        "and coming back finds it still on"
    );
}

#[test]
fn a_split_group_wraps_at_its_own_narrower_width() {
    // Two groups share the width, so the same line wraps earlier in each. A
    // group that kept the full-width wrap column would draw past its column.
    let mut s = session();
    s.open(
        PathBuf::from("/w/a.md"),
        &format!("{}\n", "word ".repeat(30)),
    );
    s.resize(80, 8);
    press(&mut s, "alt+z");
    let single = s.wrap_column();

    s.run("workbench.action.splitEditor", None, 0);
    s.resize(80, 8);
    let split = s.wrap_column();
    assert!(split < single, "{split} should be narrower than {single}");
    let other = s.groups.split_view.as_ref().unwrap().text_width;
    assert!(
        other.abs_diff(s.active.view.text_width) <= 1,
        "both groups get their own, within the cell the remainder goes to: \
         {other} and {}",
        s.active.view.text_width
    );
}

#[test]
fn a_frontend_that_does_not_wrap_makes_the_setting_inert() {
    // The GPU frontend lays out one line per row. If the session wrapped
    // anyway, it would scroll and move the caret by rows that are not drawn,
    // and the caret would not match the text.
    let mut s = configured(EditorSettings { word_wrap: WordWrap::WordWrapColumn, ..plain() });
    s.config.wrap_column = 20;
    s.chrome.frontend_wraps = false;
    s.open(
        PathBuf::from("/w/a.md"),
        &format!("{}\n", "word ".repeat(30)),
    );
    s.resize(80, 8);

    assert_eq!(
        s.wrap_column(),
        0,
        "not even `wordWrapColumn`, which ignores the window"
    );
}

// ---- Search in files ---------------------------------------------------

#[test]
fn ctrl_shift_f_asks_what_to_look_for() {
    let mut s = searchable("alpha beta\n");
    s.active.view.selections = SelectionSet::caret(Position::new(0, 1));
    assert_eq!(press(&mut s, "ctrl+shift+f"), Outcome::Handled);
    let prompt = s.prompt.as_ref().expect("a prompt should be open");
    assert_eq!(prompt.kind(), PromptKind::SearchQuery);
    assert_eq!(
        prompt.text(),
        "alpha",
        "seeded with the word under the cursor"
    );
}

#[test]
fn accepting_the_search_prompt_hands_over_the_query_and_its_options() {
    let mut s = searchable("x\n");
    s.run("workbench.action.findInFiles", None, 0);
    press(&mut s, "ctrl+x");
    for key in ["t", "o", "d", "o"] {
        press(&mut s, key);
    }
    assert_eq!(
        press(&mut s, "enter"),
        Outcome::SearchInFiles {
            query: "todo".to_owned(),
            options: options(),
        }
    );
}

#[test]
fn a_project_search_and_the_find_bar_have_their_own_options() {
    let mut s = searchable("x\n");
    s.run("workbench.action.findInFiles", None, 0);
    press(&mut s, "alt+c");
    assert_eq!(
        s.status.as_deref(),
        Some("Search: case on, whole word off, regex off"),
        "a toggle nobody can see is a toggle nobody trusts"
    );
    assert!(
        !s.active.find.options.case_sensitive,
        "the find bar is untouched"
    );

    press(&mut s, "ctrl+x");
    press(&mut s, "x");
    let Outcome::SearchInFiles { options, .. } = press(&mut s, "enter") else {
        panic!("the search should run");
    };
    assert!(options.case_sensitive, "the search kept its own");
}

#[test]
fn an_empty_search_query_says_so_rather_than_walking_the_workspace() {
    let mut s = session();
    s.resize(80, 10);
    s.run("workbench.action.findInFiles", None, 0);
    assert_eq!(
        press(&mut s, "enter"),
        Outcome::Message("nothing to search for".to_owned())
    );
}

#[test]
fn the_search_seed_prefers_the_selection_then_the_word_then_the_find_query() {
    let mut s = searchable("alpha beta\n");
    // The word under the cursor.
    s.active.view.selections = SelectionSet::caret(Position::new(0, 7));
    assert_eq!(s.search_seed().as_deref(), Some("beta"));

    // A selection wins over the word it sits in.
    s.active.view.selections = SelectionSet::single(
        Selection::new(Position::new(0, 0), Position::new(0, 5)),
    );
    assert_eq!(s.search_seed().as_deref(), Some("alpha"));

    // With neither, the find bar's last query is used.
    let mut blank = searchable("   \n");
    blank.active.view.selections = SelectionSet::caret(Position::new(0, 1));
    assert_eq!(blank.search_seed(), None);
    blank.active.find.query = "gamma".to_owned();
    assert_eq!(blank.search_seed().as_deref(), Some("gamma"));
}

#[test]
fn results_open_a_prompt_that_counts_matches() {
    let mut s = searchable("x\n");
    s.offer_search_results(
        "total",
        vec![
            at(
                "/w/a.rs",
                "a.rs:2: let total = 1;",
                Position::new(1, 8),
            ),
            at("/w/b.rs", "b.rs:1: // total", Position::new(0, 3)),
        ],
    );
    let prompt = s.prompt.as_ref().expect("a prompt should be open");
    assert_eq!(prompt.kind(), PromptKind::SearchResults);
    assert_eq!(prompt.matches(), 2);
}

#[test]
fn accepting_a_result_asks_for_the_file_and_the_position() {
    let mut s = searchable("x\n");
    s.offer_search_results(
        "total",
        vec![at(
            "/w/a.rs",
            "a.rs:2: let total = 1;",
            Position::new(1, 8),
        )],
    );
    assert_eq!(
        press(&mut s, "enter"),
        Outcome::OpenFile {
            path: PathBuf::from("/w/a.rs"),
            at: Some(Position::new(1, 8)),
        }
    );
}

#[test]
fn a_term_found_nowhere_says_that_rather_than_that_there_are_no_files() {
    // These are different conditions and need different messages.
    let mut s = searchable("x\n");
    s.offer_search_results("zzz", Vec::new());
    assert!(s.prompt.is_none());
    assert_eq!(s.status.as_deref(), Some("`zzz` is not in any file here"));

    s.offer_files(Vec::new());
    assert_eq!(s.status.as_deref(), Some("no files found here"));
}

#[test]
fn quick_open_still_opens_a_file_with_no_position() {
    let mut s = searchable("x\n");
    s.offer_files(vec![PaletteEntry::new("/w/a.rs", "a.rs")]);
    assert_eq!(
        press(&mut s, "enter"),
        Outcome::OpenFile {
            path: PathBuf::from("/w/a.rs"),
            at: None,
        }
    );
}

// ---- Save as, and open by path ----------------------------------------

#[test]
fn save_as_seeds_the_prompt_with_the_current_path() {
    // Editing the current path is faster than typing a full one.
    let mut s = searchable("x\n");
    s.open(PathBuf::from("/w/notes.txt"), "text\n");
    assert_eq!(press(&mut s, "ctrl+shift+s"), Outcome::Handled);
    let prompt = s.prompt.as_ref().expect("a prompt should be open");
    assert_eq!(prompt.kind(), PromptKind::SaveAs);
    assert_eq!(prompt.text(), "/w/notes.txt");
}

#[test]
fn open_file_seeds_the_prompt_with_the_directory_only() {
    // The user wants to open a different file, so the seed omits the file
    // name.
    let mut s = searchable("x\n");
    s.open(PathBuf::from("/w/src/main.rs"), "fn main() {}\n");
    s.run("workbench.action.files.openFile", None, 0);
    let prompt = s.prompt.as_ref().expect("a prompt should be open");
    assert_eq!(prompt.kind(), PromptKind::OpenPath);
    assert_eq!(prompt.text(), "/w/src/");
}

#[test]
fn an_untitled_document_gets_an_empty_seed_rather_than_a_guess() {
    let mut s = session();
    s.resize(80, 10);
    s.run("workbench.action.files.saveAs", None, 0);
    assert_eq!(s.prompt.as_ref().unwrap().text(), "");
}

#[test]
fn accepting_save_as_hands_the_path_to_the_frontend() {
    let mut s = searchable("x\n");
    s.open(PathBuf::from("/w/notes.txt"), "text\n");
    s.run("workbench.action.files.saveAs", None, 0);
    // `ctrl+x` clears a one-line input, so the seed is replaced rather than
    // appended to. `ctrl+a` is ignored, because the field has no selection.
    press(&mut s, "ctrl+x");
    for key in ["a", ".", "t", "o", "m", "l"] {
        press(&mut s, key);
    }
    assert_eq!(
        press(&mut s, "enter"),
        Outcome::SaveAs(PathBuf::from("a.toml"))
    );
}

#[test]
fn accepting_a_typed_path_opens_it_the_same_way_quick_open_does() {
    let mut s = searchable("x\n");
    s.run("workbench.action.files.openFile", None, 0);
    press(&mut s, "ctrl+x");
    for key in ["a", ".", "r", "s"] {
        press(&mut s, key);
    }
    assert_eq!(
        press(&mut s, "enter"),
        Outcome::OpenFile {
            path: PathBuf::from("a.rs"),
            at: None,
        }
    );
}

#[test]
fn an_empty_path_says_so_rather_than_writing_somewhere() {
    // Untitled, so the seed is empty to begin with.
    let mut s = session();
    s.resize(80, 10);
    s.run("workbench.action.files.saveAs", None, 0);
    assert_eq!(
        press(&mut s, "enter"),
        Outcome::Message("no filename given".to_owned())
    );
    s.run("workbench.action.files.openFile", None, 0);
    assert_eq!(
        press(&mut s, "enter"),
        Outcome::Message("no filename given".to_owned())
    );
}

#[test]
fn renaming_redetects_the_language_from_the_new_name() {
    // `notes.txt` saved as `notes.toml` is a TOML file now.
    let mut s = searchable("x\n");
    s.open(PathBuf::from("/w/notes.txt"), "name = 1\n");
    assert_eq!(s.language(), None);

    assert_eq!(
        s.rename_to(PathBuf::from("/w/notes.toml")),
        Outcome::Message("Saved /w/notes.toml".to_owned())
    );
    assert_eq!(s.language(), Some("toml"));
    assert!(s.active.document.relex);
    assert!(
        !s.active.document.dirty,
        "what is on disk is what is in the buffer"
    );
    assert_eq!(s.active.document.path, Some(PathBuf::from("/w/notes.toml")));
}

#[test]
fn renaming_keeps_a_language_that_was_chosen_by_hand() {
    // Saving under a new name must not override a manually chosen language.
    let mut s = searchable("x\n");
    s.open(PathBuf::from("/w/notes.txt"), "name = 1\n");
    s.set_language(Some("toml"));

    s.rename_to(PathBuf::from("/w/other.txt"));
    assert_eq!(s.language(), Some("toml"));
}

#[test]
fn renaming_a_detected_language_still_follows_the_name() {
    // The opposite of the case above: no language was chosen manually, so the
    // file name decides.
    let mut s = searchable("x\n");
    s.open(PathBuf::from("/w/main.rs"), "fn main() {}\n");
    assert_eq!(s.language(), Some("rust"));
    s.rename_to(PathBuf::from("/w/main.py"));
    assert_eq!(s.language(), Some("python"));
}

// ---- Panes ------------------------------------------------------------

#[test]
fn there_is_one_pane_and_it_describes_the_active_group() {
    let mut s = searchable("one\ntwo\n");
    s.open(PathBuf::from("/w/b.rs"), "fn main() {}\n");
    s.active.view.selections = SelectionSet::caret(Position::new(0, 3));

    let panes = s.panes();
    assert_eq!(panes.len(), 1);
    let pane = &panes[0];
    assert!(pane.focused, "the only group has the keyboard");
    assert_eq!(pane.document.path, Some(PathBuf::from("/w/b.rs")));
    assert_eq!(pane.view.selections.primary.active, Position::new(0, 3));
    assert_eq!(pane.tabs.len(), 2, "both tabs belong to this group");
    assert!(pane.tabs.iter().any(|tab| tab.active));
}

#[test]
fn a_pane_borrows_rather_than_copies() {
    // A second copy of the document could diverge from the one being edited.
    let mut s = searchable("x\n");
    press(&mut s, "y");
    let panes = s.panes();
    assert_eq!(panes[0].document.body.text, "yx\n");
}

// ---- One file, one tab -------------------------------------------------

#[test]
fn a_file_reached_by_two_spellings_is_one_tab() {
    let mut s = session();
    s.resize(80, 10);
    s.open(PathBuf::from("/w/src/main.rs"), "fn main() {}\n");
    s.open(PathBuf::from("/w/./src/../src/main.rs"), "fn main() {}\n");
    assert_eq!(s.tab_count(), 1);
}

#[test]
fn switching_to_it_keeps_the_edits_rather_than_rereading() {
    // With one tab per file, the second open switches to the tab, so unsaved
    // changes are kept.
    let mut s = session();
    s.resize(80, 10);
    s.open(PathBuf::from("/w/a.rs"), "saved\n");
    press(&mut s, "y");
    s.open(PathBuf::from("/w/./a.rs"), "saved\n");
    assert_eq!(s.text(), "ysaved\n");
    assert_eq!(s.tab_count(), 1);
}

#[test]
fn two_different_files_are_still_two_tabs() {
    let mut s = session();
    s.resize(80, 10);
    s.open(PathBuf::from("/w/a.rs"), "a\n");
    s.open(PathBuf::from("/w/b.rs"), "b\n");
    assert_eq!(s.tab_count(), 2);
}

// ---- Reverting and quitting -------------------------------------------

#[test]
fn reverting_an_untitled_document_empties_it_and_makes_it_closable() {
    // There is no file to re-read, and the document started empty. This lets
    // the user close a scratch buffer without saving it.
    let mut s = session();
    s.resize(80, 10);
    press(&mut s, "y");
    assert!(s.active.document.dirty);

    assert_eq!(
        s.run("workbench.action.files.revert", None, 0),
        Outcome::Message("Reverted".to_owned())
    );
    assert_eq!(s.text(), "");
    assert!(!s.active.document.dirty);
    assert_eq!(press(&mut s, "ctrl+w"), Outcome::Handled);
}

#[test]
fn reverting_a_file_asks_the_frontend_for_what_is_on_disk() {
    let mut s = searchable("saved\n");
    press(&mut s, "y");
    assert_eq!(
        s.run("workbench.action.files.revert", None, 0),
        Outcome::Revert
    );

    // The frontend then calls `revert_to` with the file's text.
    assert_eq!(
        s.revert_to("saved\n"),
        Outcome::Message("Reverted a.txt".to_owned())
    );
    assert_eq!(s.text(), "saved\n");
    assert!(!s.active.document.dirty);
}

#[test]
fn a_revert_can_be_undone() {
    // Revert discards edits, so it must be undoable.
    let mut s = searchable("saved\n");
    press(&mut s, "y");
    assert_eq!(s.text(), "ysaved\n");
    s.run("workbench.action.files.revert", None, 0);
    s.revert_to("saved\n");

    press(&mut s, "ctrl+z");
    assert_eq!(s.text(), "ysaved\n");
}

#[test]
fn revert_and_close_closes_once_the_text_comes_back() {
    let mut s = searchable("saved\n");
    s.open(PathBuf::from("/w/b.rs"), "fn main() {}\n");
    press(&mut s, "y");
    assert_eq!(
        s.run("workbench.action.revertAndCloseActiveEditor", None, 0),
        Outcome::Revert
    );
    assert_eq!(s.tab_count(), 2);
    s.revert_to("fn main() {}\n");
    assert_eq!(s.tab_count(), 1, "reverted, then closed");
}

#[test]
fn reverting_a_clean_document_says_there_is_nothing_to_do() {
    let mut s = searchable("saved\n");
    assert_eq!(
        s.run("workbench.action.files.revert", None, 0),
        Outcome::Message("a.txt has no changes".to_owned())
    );
}

#[test]
fn quitting_with_unsaved_work_refuses_and_names_it() {
    // ctrl+w does not close one unsaved document, so ctrl+q must not discard
    // all of them.
    let mut s = searchable("x\n");
    s.open(PathBuf::from("/w/b.rs"), "fn main() {}\n");
    press(&mut s, "y");

    assert_eq!(
        press(&mut s, "ctrl+q"),
        Outcome::Message(
            "1 tab has unsaved changes: b.rs — ctrl+q again to quit anyway".to_owned()
        )
    );
}

#[test]
fn every_unsaved_tab_is_named_not_just_the_one_on_screen() {
    let mut s = searchable("x\n");
    press(&mut s, "y");
    s.open(PathBuf::from("/w/b.rs"), "fn main() {}\n");
    press(&mut s, "z");

    let Outcome::Message(report) = press(&mut s, "ctrl+q") else {
        panic!("quit should be refused");
    };
    assert!(
        report.starts_with("2 tabs have unsaved changes: "),
        "{report}"
    );
    assert!(report.contains("a.txt"), "{report}");
    assert!(report.contains("b.rs"), "{report}");
}

#[test]
fn a_second_quit_goes_through() {
    let mut s = searchable("x\n");
    press(&mut s, "y");
    assert!(matches!(press(&mut s, "ctrl+q"), Outcome::Message(_)));
    assert_eq!(press(&mut s, "ctrl+q"), Outcome::Quit);
}

#[test]
fn anything_in_between_starts_the_conversation_again() {
    // Any other key resets the confirmation, so a later ctrl+q asks again.
    let mut s = searchable("x\n");
    press(&mut s, "y");
    assert!(matches!(press(&mut s, "ctrl+q"), Outcome::Message(_)));
    press(&mut s, "left");
    assert!(
        matches!(press(&mut s, "ctrl+q"), Outcome::Message(_)),
        "the refusal should be offered again"
    );
}

#[test]
fn quitting_with_nothing_unsaved_just_quits() {
    let mut s = searchable("x\n");
    assert_eq!(press(&mut s, "ctrl+q"), Outcome::Quit);
}

// ---- Split editor -----------------------------------------------------

#[test]
fn splitting_gives_the_same_document_a_second_view() {
    // One buffer, two views. Two documents would be two divergent copies of
    // one file, which `open` also prevents for tabs.
    let mut s = searchable("one\ntwo\nthree\n");
    assert_eq!(s.group_count(), 1);
    press(&mut s, "ctrl+\\");
    assert_eq!(s.group_count(), 2);

    let panes = s.panes();
    assert_eq!(panes.len(), 2);
    assert!(std::ptr::eq(panes[0].document, panes[1].document));
    // The new group starts at the same position as the old one and takes
    // the keyboard.
    assert!(!panes[0].focused);
    assert!(panes[1].focused);
}

#[test]
fn each_group_scrolls_and_moves_on_its_own() {
    // Two places in one file are visible at once.
    let mut s = searchable(&"line\n".repeat(60));
    s.resize(80, 10);
    press(&mut s, "ctrl+\\");
    s.active.view.scroll_top = 40;
    s.active.view.selections = SelectionSet::caret(Position::new(42, 0));

    let panes = s.panes();
    assert_eq!(panes[0].view.scroll_top, 0, "the first group stayed put");
    assert_eq!(panes[1].view.scroll_top, 40);
}

#[test]
fn ctrl_1_and_ctrl_2_move_the_keyboard_between_the_groups() {
    let mut s = searchable(&"line\n".repeat(60));
    s.resize(80, 10);
    press(&mut s, "ctrl+\\");
    s.active.view.scroll_top = 40;

    press(&mut s, "ctrl+1");
    assert_eq!(s.active.view.scroll_top, 0, "the first group's view is now active");
    assert!(s.panes()[0].focused);

    press(&mut s, "ctrl+2");
    assert_eq!(s.active.view.scroll_top, 40, "and the second group's is back");
    assert!(s.panes()[1].focused);
}

#[test]
fn typing_goes_into_the_group_with_the_keyboard() {
    // Both groups show the edit, because there is one document, but only the
    // focused view's cursor moves.
    let mut s = searchable("abc\n");
    press(&mut s, "ctrl+\\");
    s.active.view.selections = SelectionSet::caret(Position::new(0, 3));
    press(&mut s, "d");

    assert_eq!(s.text(), "abcd\n");
    let panes = s.panes();
    assert_eq!(panes[1].view.selections.primary.active, Position::new(0, 4));
    assert_eq!(
        panes[0].view.selections.primary.active,
        Position::new(0, 0),
        "the other group's cursor stayed where it was"
    );
}

#[test]
fn splitting_twice_says_it_is_already_split() {
    let mut s = searchable("x\n");
    press(&mut s, "ctrl+\\");
    assert_eq!(
        press(&mut s, "ctrl+\\"),
        Outcome::Message("the editor is already split".to_owned())
    );
    assert_eq!(s.group_count(), 2);
}

#[test]
fn focusing_a_group_that_is_not_there_says_so() {
    let mut s = searchable("x\n");
    assert_eq!(
        press(&mut s, "ctrl+2"),
        Outcome::Message("there is only one editor group".to_owned())
    );
    press(&mut s, "ctrl+\\");
    assert_eq!(
        press(&mut s, "ctrl+3"),
        Outcome::Message("there are only 2 editor groups".to_owned())
    );
}

#[test]
fn ctrl_w_closes_the_group_before_it_closes_the_tab() {
    // After a split, the key first closes the second group.
    let mut s = searchable("x\n");
    s.open(PathBuf::from("/w/b.rs"), "fn main() {}\n");
    press(&mut s, "ctrl+\\");
    assert_eq!(s.tab_count(), 2);

    assert_eq!(
        press(&mut s, "ctrl+w"),
        Outcome::Message("Closed the second group".to_owned())
    );
    assert_eq!(s.group_count(), 1);
    assert_eq!(s.tab_count(), 2, "and the tab is still open");

    // With one group again, it closes the tab as it always did.
    press(&mut s, "ctrl+w");
    assert_eq!(s.tab_count(), 1);
}

#[test]
fn moving_between_groups_closes_the_find_bar() {
    // Its matches were found in the other view, and its current match is at
    // that group's cursor.
    let mut s = searchable("hello hello\n");
    press(&mut s, "ctrl+\\");
    s.run("actions.find", None, 0);
    assert!(s.active.find.visible);
    press(&mut s, "ctrl+1");
    assert!(!s.active.find.visible);
}

// ---- Colour theme -----------------------------------------------------

#[test]
fn ctrl_k_ctrl_t_asks_the_frontend_for_the_installed_themes() {
    // Handled by the frontend, because a marketplace theme is a file in an
    // extension directory and the core has no filesystem.
    let mut s = searchable("x\n");
    assert_eq!(press(&mut s, "ctrl+k"), Outcome::Handled);
    assert_eq!(
        press(&mut s, "ctrl+t"),
        Outcome::Frontend("workbench.action.selectTheme".to_owned())
    );
}

#[test]
fn choosing_a_theme_names_the_file_to_read() {
    let mut s = searchable("x\n");
    s.offer_themes(vec![
        PaletteEntry::new("", "Default Dark Modern").with_detail("dark"),
        PaletteEntry::new("/ext/owl.json", "Night Owl").with_detail("dark"),
    ]);
    let prompt = s.prompt.as_ref().expect("a picker should be open");
    assert_eq!(prompt.kind(), PromptKind::Themes);
    assert_eq!(prompt.matches(), 2);

    for key in ["o", "w", "l"] {
        press(&mut s, key);
    }
    assert_eq!(
        press(&mut s, "enter"),
        Outcome::LoadTheme {
            label: "Night Owl".to_owned(),
            path: Some(PathBuf::from("/ext/owl.json")),
        }
    );
}

#[test]
fn a_builtin_theme_names_no_file() {
    let mut s = searchable("x\n");
    s.offer_themes(vec![PaletteEntry::new(
        "",
        "Default Light Modern",
    )]);
    assert_eq!(
        press(&mut s, "enter"),
        Outcome::LoadTheme {
            label: "Default Light Modern".to_owned(),
            path: None,
        }
    );
}

#[test]
fn the_theme_list_keeps_the_order_it_was_given() {
    // The built-in themes always work, so they stay at the top above the
    // installed ones.
    let mut s = searchable("x\n");
    s.offer_themes(vec![
        PaletteEntry::new("", "Default Dark Modern"),
        PaletteEntry::new("", "Default Light Modern"),
        PaletteEntry::new("/ext/a.json", "Aardvark"),
    ]);
    let titles: Vec<String> = s
        .prompt
        .as_ref()
        .unwrap()
        .visible()
        .iter()
        .map(|entry| entry.title.clone())
        .collect();
    assert_eq!(
        titles,
        ["Default Dark Modern", "Default Light Modern", "Aardvark"]
    );
}

#[test]
fn setting_a_theme_says_how_to_keep_it() {
    // The setting is read but never written, so the message tells the user which one to change.
    let mut s = searchable("x\n");
    assert_eq!(
        s.set_theme("Default Light Modern".to_owned()),
        Outcome::Message(
            "Theme: Default Light Modern — set `workbench.colorTheme` to keep it".to_owned()
        )
    );
    assert_eq!(s.theme, "Default Light Modern");
}

#[test]
fn nothing_matching_what_was_typed_in_the_theme_picker_says_so() {
    let mut s = searchable("x\n");
    s.offer_themes(vec![PaletteEntry::new("", "Default Dark Modern")]);
    for key in ["z", "z"] {
        press(&mut s, key);
    }
    assert_eq!(
        press(&mut s, "enter"),
        Outcome::Message("no theme matches `zz`".to_owned())
    );
}

#[test]
fn an_empty_theme_list_reports_rather_than_opening_a_picker() {
    let mut s = searchable("x\n");
    s.offer_themes(Vec::new());
    assert!(s.prompt.is_none());
    assert_eq!(s.status.as_deref(), Some("no themes found"));
}

// ---- Change language mode ---------------------------------------------

#[test]
fn ctrl_k_m_offers_every_language_and_auto_detect() {
    let mut s = searchable("x\n");
    assert_eq!(press(&mut s, "ctrl+k"), Outcome::Handled);
    assert_eq!(press(&mut s, "m"), Outcome::Handled);
    let prompt = s.prompt.as_ref().expect("a picker should be open");
    assert_eq!(prompt.kind(), PromptKind::Languages);
    assert_eq!(prompt.matches(), LANGUAGES.len() + 1);
    // Detection is first, because it is the only way to undo a manual
    // language choice.
    assert_eq!(
        prompt
            .selected()
            .map(|entry| entry.title.clone())
            .as_deref(),
        Some("Auto Detect")
    );
}

#[test]
fn choosing_a_language_relexes_and_reresolves_the_settings() {
    // A `.txt` file that contains TOML. The name does not indicate TOML, so
    // the lexer is inactive until the language is set.
    let mut config = Config::of(EditorSettings { tab_size: 4, ..plain() });
    config.languages.push(("toml", EditorSettings { tab_size: 2, ..plain() }));
    let mut s = Editor::new(config, Vec::new(), None);
    s.resize(80, 10);
    s.open(PathBuf::from("/w/notes.txt"), "name = \"deco\"\n");
    assert_eq!(s.language(), None);
    s.active.document.relex = false;
    assert_eq!(s.active.document.settings.tab_size, 4);

    assert_eq!(
        s.set_language(Some("toml")),
        Outcome::Message("Language: TOML".to_owned())
    );
    assert_eq!(s.language(), Some("toml"));
    assert!(s.active.document.relex, "the lexer wakes up");
    assert_eq!(
        s.active.document.settings.tab_size, 2,
        "and `[toml]` now applies to this document"
    );
    assert_eq!(s.context.editor_lang_id.as_deref(), Some("toml"));
}

#[test]
fn auto_detect_goes_back_to_what_the_file_name_says() {
    let mut s = searchable("x\n");
    s.open(PathBuf::from("/w/main.rs"), "fn main() {}\n");
    s.set_language(Some("python"));
    assert_eq!(s.language(), Some("python"));

    assert_eq!(
        s.set_language(None),
        Outcome::Message("Language: Rust".to_owned())
    );
    assert_eq!(s.language(), Some("rust"));
}

#[test]
fn auto_detect_on_a_file_nothing_matches_says_so() {
    let mut s = searchable("x\n");
    s.open(PathBuf::from("/w/notes.txt"), "text\n");
    assert_eq!(
        s.set_language(None),
        Outcome::Message("Language: none — nothing matches this file name".to_owned())
    );
    assert_eq!(s.language(), None);
    assert_eq!(s.context.editor_lang_id, None);
}

#[test]
fn accepting_a_language_from_the_picker_applies_it() {
    let mut s = searchable("x\n");
    s.run("workbench.action.editor.changeLanguageMode", None, 0);
    for key in ["r", "u", "s", "t"] {
        press(&mut s, key);
    }
    assert_eq!(
        press(&mut s, "enter"),
        Outcome::Message("Language: Rust".to_owned())
    );
    assert_eq!(s.language(), Some("rust"));
    assert!(s.prompt.is_none(), "the picker closes");
}

#[test]
fn changing_the_language_leaves_the_text_alone() {
    // Changing the language must not alter text or create an undo entry.
    let mut s = searchable("x\n");
    s.open(PathBuf::from("/w/notes.txt"), "name = 1\n");
    s.set_language(Some("toml"));
    assert_eq!(s.text(), "name = 1\n");
    assert!(!s.active.document.dirty, "and it is not an edit");
}

// ---- Save All ---------------------------------------------------------

/// A session with three tabs, two of them edited.
fn three_tabs() -> Editor {
    let mut s = session();
    s.resize(80, 10);
    s.open(PathBuf::from("/w/a.txt"), "a\n");
    s.open(PathBuf::from("/w/b.txt"), "b\n");
    s.open(PathBuf::from("/w/c.txt"), "c\n");
    // Edit the first and the last, leaving the middle one clean.
    s.run("workbench.action.previousEditor", None, 0);
    s.run("workbench.action.previousEditor", None, 0);
    press(&mut s, "x");
    s.run("workbench.action.nextEditor", None, 0);
    s.run("workbench.action.nextEditor", None, 0);
    press(&mut s, "y");
    s
}

#[test]
fn save_all_writes_every_edited_tab_and_leaves_the_clean_ones_alone() {
    let mut s = three_tabs();
    let mut written = Vec::new();
    let outcome = s.save_all(|path, contents| {
        written.push((path.clone(), contents.to_owned()));
        Ok(())
    });

    assert_eq!(
        written,
        vec![
            (PathBuf::from("/w/a.txt"), "xa\n".to_owned()),
            (PathBuf::from("/w/c.txt"), "yc\n".to_owned()),
        ],
        "in tab order, and only the edited ones"
    );
    assert_eq!(outcome, Outcome::Message("Saved 2 files".to_owned()));
    // And nothing is dirty afterwards, including the tabs off screen.
    assert!(s.unsaved().is_empty());
}

#[test]
fn a_failed_write_leaves_that_document_dirty() {
    // A tab must not appear saved when its write failed.
    let mut s = three_tabs();
    let outcome = s.save_all(|path, _| {
        if *path == PathBuf::from("/w/a.txt") {
            Err("/w/a.txt: permission denied".to_owned())
        } else {
            Ok(())
        }
    });

    let still = s.unsaved();
    assert_eq!(still.len(), 1);
    assert_eq!(still[0].0, PathBuf::from("/w/a.txt"));
    assert_eq!(
        outcome,
        Outcome::Message("Saved 1 file; 1 could not be written".to_owned())
    );
    // The reason goes to the problem list, because the status bar has one line.
    assert_eq!(s.problems, ["/w/a.txt: permission denied"]);
}

#[test]
fn an_untitled_document_is_counted_rather_than_given_a_name() {
    let mut s = session();
    s.resize(80, 10);
    press(&mut s, "x");
    let outcome = s.save_all(|_, _| panic!("nothing to write"));
    assert_eq!(
        outcome,
        Outcome::Message("Saved 0 files; 1 document has no filename yet".to_owned())
    );
    assert_eq!(s.unsaved_untitled(), 1);
}

#[test]
fn save_all_with_nothing_to_save_says_so() {
    let mut s = session();
    s.resize(80, 10);
    s.open(PathBuf::from("/w/a.txt"), "a\n");
    assert_eq!(
        s.save_all(|_, _| panic!("nothing to write")),
        Outcome::Message("Nothing to save".to_owned())
    );
}

#[test]
fn each_tab_is_written_with_its_own_settings() {
    // `files.insertFinalNewline` can differ per language, and a batch save
    // must use each tab's value rather than the active tab's.
    //
    // `files.eol` is fixed rather than left at `auto`. A document with no
    // existing line ending uses the platform's, so the appended newline would
    // be CRLF on Windows and the test would depend on the host.
    let mut config = Config::of(EditorSettings { insert_final_newline: false, ..plain() });
    config
        .languages
        .push(("markdown", EditorSettings { insert_final_newline: true, ..plain() }));
    let mut s = Editor::new(config, Vec::new(), None);
    s.resize(80, 10);
    s.open(PathBuf::from("/w/notes.md"), "notes");
    s.open(PathBuf::from("/w/a.txt"), "plain");
    press(&mut s, "x");
    s.run("workbench.action.previousEditor", None, 0);
    press(&mut s, "y");

    let mut written = std::collections::HashMap::new();
    s.save_all(|path, contents| {
        written.insert(path.display().to_owned(), contents.to_owned());
        Ok(())
    });
    assert_eq!(
        written.get("/w/notes.md").map(String::as_str),
        Some("ynotes\n"),
        "markdown gets its own final newline"
    );
    assert_eq!(
        written.get("/w/a.txt").map(String::as_str),
        Some("xplain"),
        "and the text file does not"
    );
}

#[test]
fn ctrl_k_s_saves_everything() {
    let mut s = three_tabs();
    assert_eq!(press(&mut s, "ctrl+k"), Outcome::Handled, "the chord waits");
    assert_eq!(press(&mut s, "s"), Outcome::SaveAll);
}

#[test]
fn ctrl_b_and_ctrl_j_toggle_the_chrome() {
    let mut s = session();
    s.resize(80, 24);
    assert!(s.regions().side_bar.is_none(), "hidden to start with");

    press(&mut s, "ctrl+b");
    assert!(s.regions().side_bar.is_some());
    assert_eq!(s.context.side_bar_visible, true);

    press(&mut s, "ctrl+j");
    assert!(s.regions().panel.is_some());
    assert_eq!(s.context.panel_visible, true);

    press(&mut s, "ctrl+b");
    press(&mut s, "ctrl+j");
    assert!(s.regions().side_bar.is_none());
    assert!(s.regions().panel.is_none());
}

#[test]
fn showing_a_region_gives_the_text_less_room_to_wrap_in() {
    // The session owns the window division because the wrap width must
    // follow it. Otherwise lines would break at a width the renderer does not
    // use.
    let mut s = session();
    s.open(PathBuf::from("/w/a.txt"), "x\n");
    s.resize(80, 24);
    let before = s.active.view.text_width;

    press(&mut s, "ctrl+b");
    assert!(
        s.active.view.text_width < before,
        "the side bar took columns from the text: {before} -> {}",
        s.active.view.text_width
    );
    assert_eq!(s.active.view.width, s.regions().editor.width);

    press(&mut s, "ctrl+j");
    assert_eq!(s.active.view.height, s.regions().editor.height);
}

// ---- The file tree ----------------------------------------------------

/// A session with a workspace whose root has been listed.
fn with_tree() -> Editor {
    let mut s = session();
    s.resize(100, 30);
    s.set_workspace_root("/w");
    assert_eq!(s.directory_wanted(), Some(PathBuf::from("/w")));
    s.fill_directory("/w",
        vec![
            Entry::dir("src"),
            Entry::file("Cargo.toml"),
        ],
    );
    s
}

#[test]
fn the_trees_keys_do_nothing_until_it_has_the_keyboard() {
    let mut s = with_tree();
    // Bound to `down`, but the caret is in the text.
    assert_eq!(s.run("list.focusDown", None, 0), Outcome::Handled);
    assert_eq!(
        s.explorer().unwrap().selection.as_ref().unwrap().name,
        "src",
        "the selection did not move while the editor had focus"
    );

    s.run("workbench.files.action.focusFilesExplorer", None, 0);
    assert_eq!(s.focus(), Focus::SideBar);
    assert_eq!(s.context.files_explorer_focus, true);
    s.run("list.focusDown", None, 0);
    assert_eq!(
        s.explorer().unwrap().selection.as_ref().unwrap().name,
        "Cargo.toml"
    );
}

#[test]
fn enter_on_a_file_opens_it_and_takes_the_keyboard_with_it() {
    let mut s = with_tree();
    s.run("workbench.files.action.focusFilesExplorer", None, 0);
    s.run("list.focusDown", None, 0);
    assert_eq!(
        s.run("list.select", None, 0),
        Outcome::OpenFile {
            path: PathBuf::from("/w/Cargo.toml"),
            at: None,
        }
    );
    assert_eq!(
        s.focus(),
        Focus::Editor,
        "opening a file puts the keyboard where the file is"
    );
}

#[test]
fn enter_on_a_directory_opens_it_and_stays_put() {
    let mut s = with_tree();
    s.run("workbench.files.action.focusFilesExplorer", None, 0);
    assert_eq!(s.run("list.select", None, 0), Outcome::Handled);
    assert_eq!(s.focus(), Focus::SideBar);
    assert_eq!(
        s.directory_wanted(), Some(PathBuf::from("/w/src")),
        "opening it is what asks for its contents"
    );
}

#[test]
fn revealing_an_unsaved_document_says_so_rather_than_doing_nothing() {
    let mut s = with_tree();
    assert!(s.active.document.path.is_none());
    assert!(matches!(
        s.run("revealInExplorer", None, 0),
        Outcome::Message(_)
    ));
}

#[test]
fn revealing_shows_the_side_bar_it_needs() {
    let mut s = with_tree();
    s.open(PathBuf::from("/w/src/main.rs"), "fn main() {}\n");
    assert!(s.regions().side_bar.is_none(), "hidden to start with");

    assert_eq!(s.run("revealInExplorer", None, 0), Outcome::Handled);
    assert!(s.regions().side_bar.is_some());
    // The directories above it were opened, so its listing is now wanted.
    assert_eq!(s.directory_wanted(), Some(PathBuf::from("/w/src")));
    s.fill_directory("/w/src",
        vec![Entry::file("main.rs")],
    );
    assert_eq!(
        s.explorer().unwrap().selection.as_ref().map(|r| r.path.clone()),
        Some(PathBuf::from("/w/src/main.rs"))
    );
}

// ---- Changing the files themselves -------------------------------------

#[test]
fn a_new_file_lands_beside_the_selected_one() {
    let mut s = with_tree();
    s.run("workbench.files.action.focusFilesExplorer", None, 0);
    s.run("list.focusDown", None, 0); // Cargo.toml, a file
    assert_eq!(
        s.create_in_tree("notes.md", false),
        Outcome::FileOperation(Operation::CreateFile(PathBuf::from(
            "/w/notes.md"
        ))),
        "a file's sibling, not a child of it"
    );
}

#[test]
fn a_new_file_inside_the_selected_directory() {
    let mut s = with_tree();
    s.run("workbench.files.action.focusFilesExplorer", None, 0);
    // `src`, a directory, is the first row.
    assert_eq!(
        s.create_in_tree("main.rs", false),
        Outcome::FileOperation(Operation::CreateFile(PathBuf::from(
            "/w/src/main.rs"
        )))
    );
}

#[test]
fn a_name_with_a_path_in_it_is_refused() {
    let mut s = with_tree();
    s.run("workbench.files.action.focusFilesExplorer", None, 0);
    assert!(matches!(
        s.create_in_tree("../../etc/passwd", false),
        Outcome::Message(_)
    ));
    assert!(
        !s.can_undo_file_operation(),
        "a refusal leaves nothing on the stack"
    );
}

#[test]
fn creating_something_that_is_already_there_is_refused() {
    let mut s = with_tree();
    s.run("workbench.files.action.focusFilesExplorer", None, 0);
    s.run("list.focusDown", None, 0);
    assert!(matches!(
        s.create_in_tree("Cargo.toml", false),
        Outcome::Message(_)
    ));
}

#[test]
fn renaming_a_file_moves_the_tab_that_holds_it() {
    let mut s = with_tree();
    s.open(PathBuf::from("/w/Cargo.toml"), "[package]\n");
    // A second tab, so the rename has to find the right one.
    s.open(PathBuf::from("/w/other.rs"), "fn other() {}\n");

    s.run("workbench.files.action.focusFilesExplorer", None, 0);
    s.run("list.focusDown", None, 0);
    let outcome = s.rename_in_tree("Cargo.lock");
    let operation = match outcome {
        Outcome::FileOperation(operation) => operation,
        other => panic!("expected an operation, got {other:?}"),
    };

    s.file_operation_done(&operation);
    assert!(
        s.tab_of(&PathBuf::from("/w/Cargo.lock")).is_some(),
        "the tab followed the file"
    );
    assert!(s.tab_of(&PathBuf::from("/w/Cargo.toml")).is_none());
    assert!(
        s.tab_of(&PathBuf::from("/w/other.rs")).is_some(),
        "the other tab was left alone"
    );
}

#[test]
fn renaming_a_file_keeps_its_unsaved_text() {
    let mut s = with_tree();
    s.open(PathBuf::from("/w/Cargo.toml"), "[package]\n");
    s.run("workbench.files.action.focusFilesExplorer", None, 0);
    s.run("list.focusDown", None, 0);
    let Outcome::FileOperation(operation) = s.rename_in_tree("Cargo.lock") else {
        panic!("expected an operation");
    };
    s.file_operation_done(&operation);
    assert_eq!(s.text(), "[package]\n");
}

#[test]
fn what_was_just_created_is_what_is_selected() {
    let mut s = with_tree();
    s.run("workbench.files.action.focusFilesExplorer", None, 0);
    // `src` is selected, so the new file goes inside it.
    let Outcome::FileOperation(operation) = s.create_in_tree("new.rs", false) else {
        panic!("expected an operation");
    };
    s.file_operation_done(&operation);

    // `src` was selected, so the file was created inside it. Revealing the
    // file expanded `src`, so the tree now requests its listing.
    assert_eq!(s.directory_wanted(), Some(PathBuf::from("/w/src")));
    s.fill_directory("/w/src",
        vec![Entry::file("new.rs")],
    );
    assert_eq!(
        s.explorer().unwrap().selection.as_ref().map(|r| r.path.clone()),
        Some(PathBuf::from("/w/src/new.rs")),
        "the next F2 or delete must act on what was just made, not on what \
         happened to be highlighted before"
    );
}

#[test]
fn undoing_a_create_deletes_it_and_undoing_a_rename_puts_it_back() {
    let mut s = with_tree();
    s.run("workbench.files.action.focusFilesExplorer", None, 0);
    let Outcome::FileOperation(create) = s.create_in_tree("new.rs", false) else {
        panic!("expected an operation");
    };
    s.file_operation_done(&create);

    // Creating a file moved focus to the editor. The tree's undo requires
    // tree focus, which the user restores with `ctrl+shift+e`.
    s.run("workbench.files.action.focusFilesExplorer", None, 0);
    assert!(s.can_undo_file_operation());
    assert_eq!(
        s.run("undo", None, 0),
        Outcome::FileOperation(Operation::DeleteIfEmpty {
            path: PathBuf::from("/w/src/new.rs"),
            directory: false,
            expect: None,
        }),
        "undoing a create removes what it made — and only if it is still \
         what was made, rather than taking whatever has been written since"
    );
}

#[test]
fn undoing_a_rename_through_the_prompts_puts_the_name_back() {
    let mut s = with_tree();
    s.run("workbench.files.action.focusFilesExplorer", None, 0);
    s.run("list.focusDown", None, 0); // Cargo.toml

    assert_eq!(s.run("renameFile", None, 0), Outcome::Handled);
    for c in "cargo.lock".chars() {
        s.press(&c.to_string());
    }
    let accepted = s.press("enter");
    let Outcome::FileOperation(rename) = accepted else {
        panic!("accepting the prompt should rename, got {accepted:?}");
    };
    s.file_operation_done(&rename);

    assert_eq!(
        s.focus(),
        Focus::SideBar,
        "answering the tree's prompt leaves the keyboard in the tree"
    );
    let undone = s.run("undo", None, 0);
    assert_eq!(
        undone,
        Outcome::FileOperation(Operation::Rename {
            from: PathBuf::from("/w/cargo.lock"),
            to: PathBuf::from("/w/Cargo.toml"),
            expect: None,
            directory: false,
        }),
        "ctrl+z in the tree puts the name back"
    );
}

#[test]
fn creating_a_file_leaves_the_keyboard_where_the_new_file_is() {
    let mut s = with_tree();
    s.run("workbench.files.action.focusFilesExplorer", None, 0);
    s.run("explorer.newFile", None, 0);
    for c in "new.rs".chars() {
        s.press(&c.to_string());
    }
    let Outcome::FileOperation(created) = s.press("enter")
    else {
        panic!("accepting the prompt should create the file");
    };
    s.file_operation_done(&created);
    // The frontend opens a created file.
    s.open(PathBuf::from("/w/src/new.rs"), "");

    assert_eq!(
        s.focus(),
        Focus::Editor,
        "a created file is opened, and the keyboard goes with it"
    );
    s.press(&'x'.to_string());
    assert_eq!(
        s.text(),
        "x",
        "typing after creating a file goes into the file"
    );
}

#[test]
fn the_trees_undo_works_after_the_document_has_been_typed_in() {
    let mut s = with_tree();
    s.run("workbench.files.action.focusFilesExplorer", None, 0);
    s.run("explorer.newFile", None, 0);
    for c in "new.rs".chars() {
        s.press(&c.to_string());
    }
    let Outcome::FileOperation(created) = s.press("enter")
    else {
        panic!("expected a create");
    };
    s.file_operation_done(&created);
    // The frontend re-reads the changed directory, so the reveal can select
    // the new file.
    assert_eq!(s.directory_wanted(), Some(PathBuf::from("/w/src")));
    s.fill_directory("/w/src",
        vec![Entry::file("new.rs")],
    );
    s.open(PathBuf::from("/w/src/new.rs"), "");
    for c in "hello".chars() {
        s.press(&c.to_string());
    }
    assert_eq!(s.text(), "hello");

    // Back to the tree and rename it.
    s.run("workbench.files.action.focusFilesExplorer", None, 0);
    s.run("renameFile", None, 0);
    for c in "other.rs".chars() {
        s.press(&c.to_string());
    }
    let Outcome::FileOperation(renamed) = s.press("enter")
    else {
        panic!("expected a rename");
    };
    s.file_operation_done(&renamed);
    s.fill_directory("/w/src",
        vec![Entry::file("other.rs")],
    );

    assert_eq!(s.focus(), Focus::SideBar);
    assert_eq!(
        s.press("ctrl+z"),
        Outcome::FileOperation(Operation::Rename {
            from: PathBuf::from("/w/src/other.rs"),
            to: PathBuf::from("/w/src/new.rs"),
            expect: None,
            directory: false,
        }),
        "the tree's undo, not the document's"
    );
    assert_eq!(
        s.text(),
        "hello",
        "and the text was left alone"
    );
}

#[test]
fn renaming_a_directory_moves_every_tab_inside_it() {
    let mut s = with_tree();
    s.fill_directory("/w/src",
        vec![
            Entry::file("main.rs"),
            Entry::file("lib.rs"),
        ],
    );
    s.open(PathBuf::from("/w/src/main.rs"), "fn main() {}\n");
    s.open(PathBuf::from("/w/src/lib.rs"), "pub fn lib() {}\n");
    s.open(PathBuf::from("/w/Cargo.toml"), "[package]\n");

    s.run("workbench.files.action.focusFilesExplorer", None, 0);
    // `src` is the first row.
    let Outcome::FileOperation(renamed) = s.rename_in_tree("source") else {
        panic!("expected a rename");
    };
    s.file_operation_done(&renamed);

    assert!(
        s.tab_of(&PathBuf::from("/w/source/main.rs")).is_some(),
        "a tab inside a renamed directory follows it"
    );
    assert!(s.tab_of(&PathBuf::from("/w/source/lib.rs")).is_some());
    assert!(s.tab_of(&PathBuf::from("/w/src/main.rs")).is_none());
    assert!(
        s.tab_of(&PathBuf::from("/w/Cargo.toml")).is_some(),
        "and a tab outside it is left alone"
    );
}

#[test]
fn a_renamed_background_tab_gets_its_new_language() {
    let mut s = with_tree();
    s.open(PathBuf::from("/w/notes.txt"), "hello\n");
    // Another tab on top, so the renamed one is in the background.
    s.open(PathBuf::from("/w/Cargo.toml"), "[package]\n");
    let index = s.tab_of(&PathBuf::from("/w/notes.txt")).expect("it is open");

    s.retarget("/w/notes.txt", "/w/notes.md");
    assert_eq!(
        s.tab_at(index).document.language_id.as_deref(),
        Some("markdown"),
        "a background tab re-resolves its language, or it stays plain text for the rest of the \
         session"
    );
}

#[test]
fn a_delete_the_disk_refuses_keeps_the_earlier_undos() {
    let mut s = with_tree();
    s.run("workbench.files.action.focusFilesExplorer", None, 0);
    let Outcome::FileOperation(created) = s.create_in_tree("new.rs", false) else {
        panic!("expected a create");
    };
    s.file_operation_done(&created);
    s.run("workbench.files.action.focusFilesExplorer", None, 0);
    assert!(s.can_undo_file_operation());

    // A failed delete must not remove the create's undo entry.
    let Outcome::FileOperation(delete) = s.delete_in_tree() else {
        panic!("expected a delete");
    };
    s.file_operation_failed(&delete, "permission denied");
    assert!(
        s.can_undo_file_operation(),
        "nothing was deleted, so the earlier undo is still good"
    );
}

#[test]
fn changing_workspace_forgets_the_other_ones_undos() {
    let mut s = with_tree();
    s.run("workbench.files.action.focusFilesExplorer", None, 0);
    let Outcome::FileOperation(created) = s.create_in_tree("new.rs", false) else {
        panic!("expected a create");
    };
    s.file_operation_done(&created);
    s.run("workbench.files.action.focusFilesExplorer", None, 0);
    assert!(s.can_undo_file_operation());

    s.set_workspace_root("/elsewhere");
    assert!(
        !s.can_undo_file_operation(),
        "an undo holding paths in the old workspace must not run in the new one"
    );
}

#[test]
fn the_trees_undo_wins_over_a_waiting_workspace_edit() {
    // After a project-wide replace the document has a shared undo step.
    // `ctrl+z` in the tree must still run the tree's undo.
    let mut s = with_tree();
    s.run("workbench.files.action.focusFilesExplorer", None, 0);
    let Outcome::FileOperation(created) = s.create_in_tree("new.rs", false) else {
        panic!("expected a create");
    };
    s.file_operation_done(&created);
    s.run("workbench.files.action.focusFilesExplorer", None, 0);

    assert!(
        matches!(
            s.run("undo", None, 0),
            Outcome::FileOperation(Operation::DeleteIfEmpty { .. })
        ),
        "the tree's undo, even with the document holding a shared step"
    );
}

#[test]
fn the_trees_undo_walks_back_rather_than_toggling() {
    let mut s = with_tree();
    s.run("workbench.files.action.focusFilesExplorer", None, 0);
    let Outcome::FileOperation(first) = s.create_in_tree("one.rs", false) else {
        panic!("expected a create");
    };
    s.file_operation_done(&first);
    s.run("workbench.files.action.focusFilesExplorer", None, 0);
    let Outcome::FileOperation(second) = s.create_in_tree("two.rs", false) else {
        panic!("expected a create");
    };
    s.file_operation_done(&second);
    s.run("workbench.files.action.focusFilesExplorer", None, 0);

    // Two presses must undo two operations, not undo one and redo it.
    let Outcome::FileOperation(undone_second) = s.run("undo", None, 0) else {
        panic!("expected the second create to be undone");
    };
    s.file_operation_done(&undone_second);
    s.run("workbench.files.action.focusFilesExplorer", None, 0);
    let Outcome::FileOperation(undone_first) = s.run("undo", None, 0) else {
        panic!("expected the first create to be undone too");
    };
    assert_ne!(
        undone_first, undone_second,
        "pressing undo twice must reach the older entry, not toggle the newer"
    );
    assert!(!s.can_undo_file_operation(), "and then there are none left");
}

#[test]
fn an_undo_the_disk_refuses_can_be_tried_again() {
    let mut s = with_tree();
    s.run("workbench.files.action.focusFilesExplorer", None, 0);
    let Outcome::FileOperation(created) = s.create_in_tree("new.rs", false) else {
        panic!("expected a create");
    };
    s.file_operation_done(&created);
    s.run("workbench.files.action.focusFilesExplorer", None, 0);

    let Outcome::FileOperation(undo) = s.run("undo", None, 0) else {
        panic!("expected an undo");
    };
    s.file_operation_failed(&undo, "it has been written to since");
    assert!(
        s.can_undo_file_operation(),
        "an undo that did not happen is still there to try again"
    );
}

#[test]
fn a_create_the_disk_refuses_leaves_the_keyboard_in_the_tree() {
    let mut s = with_tree();
    s.run("workbench.files.action.focusFilesExplorer", None, 0);
    let Outcome::FileOperation(operation) = s.create_in_tree("new.rs", false) else {
        panic!("expected a create");
    };
    s.file_operation_failed(&operation, "permission denied");
    assert_eq!(
        s.focus(),
        Focus::SideBar,
        "nothing was created, so there is nothing to have moved into"
    );
}

#[test]
fn deleting_an_open_file_stops_its_tab_writing_it_back() {
    let mut s = with_tree();
    s.fill_directory("/w/src",
        vec![Entry::file("main.rs")],
    );
    s.open(PathBuf::from("/w/src/main.rs"), "fn main() {}\n");
    s.run("workbench.files.action.focusFilesExplorer", None, 0);
    s.run("list.expand", None, 0);
    s.run("list.focusDown", None, 0);
    assert_eq!(s.explorer().unwrap().selection.as_ref().unwrap().name, "main.rs");

    let Outcome::FileOperation(deleted) = s.delete_in_tree() else {
        panic!("expected a delete");
    };
    s.file_operation_done(&deleted);

    assert!(
        s.tab_of(&PathBuf::from("/w/src/main.rs")).is_none(),
        "no tab may still point at a file that has been deleted — saving it \
         would put the file back"
    );
}

#[test]
fn renaming_across_languages_changes_the_lexer_too() {
    let mut s = with_tree();
    s.open(PathBuf::from("/w/notes.txt"), "# hello\n");
    s.open(PathBuf::from("/w/Cargo.toml"), "[package]\n");
    let index = s.tab_of(&PathBuf::from("/w/notes.txt")).expect("it is open");
    s.tab_at_mut(index).document.relex = false;

    s.retarget("/w/notes.txt", "/w/notes.md");
    let document = &s.tab_at(index).document;
    assert_eq!(document.language_id.as_deref(), Some("markdown"));
    assert!(
        document.relex,
        "the highlighting follows the language, or the file keeps being shown as whatever it used \
         to be"
    );
}

#[test]
fn a_delete_carries_the_type_the_tree_was_showing() {
    let mut s = with_tree();
    s.run("workbench.files.action.focusFilesExplorer", None, 0);
    // `src`, a directory.
    let Outcome::FileOperation(operation) = s.delete_in_tree() else {
        panic!("expected a delete");
    };
    assert_eq!(
        operation,
        Operation::Delete {
            path: PathBuf::from("/w/src"),
            directory: true,
        }
    );

    s.run("list.focusDown", None, 0); // Cargo.toml, a file
    let Outcome::FileOperation(operation) = s.delete_in_tree() else {
        panic!("expected a delete");
    };
    assert_eq!(
        operation,
        Operation::Delete {
            path: PathBuf::from("/w/Cargo.toml"),
            directory: false,
        },
        "a file is deleted as a file, whatever the disk says by the time the \
         frontend gets there"
    );
}

#[test]
fn detaching_a_deleted_tab_drops_its_diagnostics_and_tells_the_server() {
    let mut s = with_tree();
    s.fill_directory("/w/src",
        vec![Entry::file("main.rs")],
    );
    s.open(PathBuf::from("/w/src/main.rs"), "fn main() {}\n");
    s.active.diagnostics = vec![diagnostic(0, Severity::Error, "something")];

    s.run("workbench.files.action.focusFilesExplorer", None, 0);
    s.run("list.expand", None, 0);
    s.run("list.focusDown", None, 0);
    let Outcome::FileOperation(deleted) = s.delete_in_tree() else {
        panic!("expected a delete");
    };
    s.file_operation_done(&deleted);

    assert!(
        s.active.diagnostics.is_empty(),
        "squiggles describing a file that is gone must not outlive it"
    );
    assert_eq!(
        s.take_closed_documents(),
        vec![PathBuf::from("/w/src/main.rs")],
        "the server is holding it open under a URI that names nothing"
    );
    assert!(
        s.take_closed_documents().is_empty(),
        "and taking them is what forgets them"
    );
}

#[test]
fn renaming_away_from_a_language_drops_what_the_server_said() {
    let mut s = with_tree();
    s.open(PathBuf::from("/w/main.rs"), "fn main() {}\n");
    s.active.semantic = vec!["keyword"];

    // `.txt` has no language, so no server will replace these tokens.
    s.retarget("/w/main.rs", "/w/main.txt");
    assert!(
        s.active.semantic.is_empty(),
        "tokens from the old language must not outlive it — nothing would ever replace them"
    );
    assert_eq!(
        s.take_closed_documents(),
        vec![PathBuf::from("/w/main.rs")],
        "and the server is told the file it knew is closed"
    );
}

#[test]
fn tabs_can_be_let_go_one_file_at_a_time() {
    // Needed for a partly completed recursive delete: some of a directory's
    // files are gone and the rest remain, and only the filesystem can tell
    // which.
    let mut s = with_tree();
    s.fill_directory("/w/src",
        vec![
            Entry::file("gone.rs"),
            Entry::file("kept.rs"),
        ],
    );
    s.open(PathBuf::from("/w/src/gone.rs"), "fn gone() {}\n");
    s.open(PathBuf::from("/w/src/kept.rs"), "fn kept() {}\n");

    let under = s.open_paths_under(&PathBuf::from("/w/src"));
    assert_eq!(under.len(), 2, "both tabs are under it");

    assert_eq!(s.detach_tabs_under(&PathBuf::from("/w/src/gone.rs")), 1);
    assert!(s.tab_of(&PathBuf::from("/w/src/gone.rs")).is_none());
    assert!(
        s.tab_of(&PathBuf::from("/w/src/kept.rs")).is_some(),
        "the file that survived keeps its tab"
    );
}

#[test]
fn a_half_finished_delete_puts_the_same_barrier_up() {
    let mut s = with_tree();
    s.run("workbench.files.action.focusFilesExplorer", None, 0);
    let Outcome::FileOperation(created) = s.create_in_tree("new.rs", false) else {
        panic!("expected a create");
    };
    s.file_operation_done(&created);
    s.run("workbench.files.action.focusFilesExplorer", None, 0);
    assert!(s.can_undo_file_operation());

    // A recursive delete that removed part of a tree and then stopped. An
    // irreversible change happened, so the older inverses no longer describe
    // a valid state.
    s.clear_file_undo();
    assert!(!s.can_undo_file_operation());
}

#[test]
fn accepting_the_rename_prompt_unchanged_changes_nothing() {
    let mut s = with_tree();
    // A name a filesystem may allow and `check_name` would trim.
    s.fill_directory("/w",
        vec![Entry::file(" report ")],
    );
    s.run("workbench.files.action.focusFilesExplorer", None, 0);
    assert_eq!(s.explorer().unwrap().selection.as_ref().unwrap().name, " report ");

    assert_eq!(
        s.rename_in_tree(" report "),
        Outcome::Handled,
        "pressing enter on the seeded prompt must not rename the file to a \
         trimmed version of its own name"
    );
}

#[test]
fn a_deleted_directorys_rows_do_not_come_back_with_its_name() {
    let mut s = with_tree();
    s.run("workbench.files.action.focusFilesExplorer", None, 0);
    s.run("list.expand", None, 0); // open `src`
    s.fill_directory("/w/src",
        vec![Entry::file("old.rs")],
    );
    assert!(s.tree.rows()
        .iter()
        .any(|r| r.name == "old.rs"));

    let Outcome::FileOperation(deleted) = s.delete_in_tree() else {
        panic!("expected a delete");
    };
    s.file_operation_done(&deleted);
    // A new, empty directory with the same name exists.
    s.fill_directory("/w", vec![Entry::dir("src")]);

    let rows = s.tree.rows();
    assert!(
        !rows.iter().any(|r| r.name == "old.rs"),
        "the deleted directory's rows must not be inherited by its name"
    );
    assert!(
        !rows.iter().find(|r| r.name == "src").unwrap().expanded,
        "nor its expansion"
    );
}

#[test]
fn pinning_the_language_a_name_already_implies_still_counts_as_choosing() {
    let mut s = with_tree();
    s.open(PathBuf::from("/w/main.rs"), "fn main() {}\n");
    assert_eq!(s.language(), Some("rust"));
    // Choosing Rust for a file already detected as Rust. The language value alone cannot
    // distinguish this from no manual choice.
    s.set_language(Some("rust"));

    s.retarget("/w/main.rs", "/w/main.txt");
    assert_eq!(
        s.language(),
        Some("rust"),
        "a language pinned by hand survives a rename, whatever the new name would have implied"
    );
}

#[test]
fn renaming_onto_a_path_a_tab_still_holds_is_refused() {
    let mut s = with_tree();
    // A file another program deleted, still open here. The tree no longer
    // lists it, so only the tab check prevents the rename.
    s.open(PathBuf::from("/w/gone.rs"), "fn gone() {}\n");
    s.run("workbench.files.action.focusFilesExplorer", None, 0);
    s.run("list.focusDown", None, 0); // Cargo.toml

    assert!(
        matches!(s.rename_in_tree("gone.rs"), Outcome::Message(_)),
        "two buffers for one path is how a save silently loses the other"
    );
}

#[test]
fn creating_onto_a_path_a_tab_still_holds_is_refused() {
    let mut s = with_tree();
    // Deleted by another program and still open here. The tree does not
    // list it, so only the tab check prevents the create.
    s.open(PathBuf::from("/w/gone.rs"), "fn gone() {}\n");
    s.run("workbench.files.action.focusFilesExplorer", None, 0);
    s.run("list.focusDown", None, 0); // Cargo.toml, so the parent is `/w`

    assert!(
        matches!(s.create_in_tree("gone.rs", false), Outcome::Message(_)),
        "creating it would make an empty file that the old buffer then \
         writes over"
    );
}

#[test]
fn renaming_a_directory_onto_one_holding_an_open_file_is_refused() {
    let mut s = with_tree();
    // `/w/b/x.rs` is open, and another program removed `b`, so the tree does
    // not list it and the name appears free.
    s.open(PathBuf::from("/w/b/x.rs"), "fn x() {}\n");
    s.fill_directory("/w",
        vec![
            Entry::dir("a"),
            Entry::file("Cargo.toml"),
        ],
    );
    s.run("workbench.files.action.focusFilesExplorer", None, 0);
    assert_eq!(s.explorer().unwrap().selection.as_ref().unwrap().name, "a");

    assert!(
        matches!(s.rename_in_tree("b"), Outcome::Message(_)),
        "renaming a directory onto one whose subtree a tab still holds \
         would make two buffers for the same file"
    );
}

#[test]
fn stamping_does_not_touch_the_entry_below_the_one_being_undone() {
    let mut s = with_tree();
    s.run("workbench.files.action.focusFilesExplorer", None, 0);
    s.run("list.focusDown", None, 0); // Cargo.toml
    let Outcome::FileOperation(first) = s.rename_in_tree("Cargo.lock") else {
        panic!("expected a rename");
    };
    s.file_operation_done(&first);
    s.fill_directory("/w",
        vec![
            Entry::dir("src"),
            Entry::file("Cargo.lock"),
        ],
    );
    s.run("workbench.files.action.focusFilesExplorer", None, 0);
    let Outcome::FileOperation(second) = s.rename_in_tree("Cargo.toml2") else {
        panic!("expected a second rename");
    };
    s.file_operation_done(&second);
    s.run("workbench.files.action.focusFilesExplorer", None, 0);

    // Undo the second rename. The frontend stamps the file it just moved,
    // and the stamp must not be applied to the first rename's entry, which
    // is now on top.
    let Outcome::FileOperation(undo) = s.run("undo", None, 0) else {
        panic!("expected an undo");
    };
    s.stamp_last_undo(Stamp {
        len: 999,
        modified: None,
    });
    s.file_operation_done(&undo);
    s.run("workbench.files.action.focusFilesExplorer", None, 0);

    let Outcome::FileOperation(Operation::Rename { expect, .. }) =
        s.run("undo", None, 0)
    else {
        panic!("the earlier rename should still be undoable");
    };
    assert_eq!(
        expect, None,
        "the first rename's entry must not carry a stamp taken from the \
         second rename's file"
    );
}

#[test]
fn undoing_a_rename_onto_a_path_a_tab_holds_is_refused() {
    let mut s = with_tree();
    s.run("workbench.files.action.focusFilesExplorer", None, 0);
    s.run("list.focusDown", None, 0); // Cargo.toml
    let Outcome::FileOperation(renamed) = s.rename_in_tree("Cargo.lock") else {
        panic!("expected a rename");
    };
    s.file_operation_done(&renamed);

    // A new `Cargo.toml` is opened and then removed by another program, so
    // the tree does not list it and the path appears free.
    s.open(PathBuf::from("/w/Cargo.toml"), "someone else's\n");
    s.run("workbench.files.action.focusFilesExplorer", None, 0);

    assert!(
        matches!(s.run("undo", None, 0), Outcome::Message(_)),
        "undoing onto a path a tab still holds would make two buffers for it"
    );
    assert!(
        s.can_undo_file_operation(),
        "and the undo stays available for once the tab is closed"
    );
}

#[test]
fn a_new_folder_does_not_inherit_a_vanished_ones_children() {
    let mut s = with_tree();
    s.run("workbench.files.action.focusFilesExplorer", None, 0);
    s.run("list.expand", None, 0); // open `src`
    s.fill_directory("/w/src",
        vec![Entry::file("old.rs")],
    );
    assert!(s.tree.rows()
        .iter()
        .any(|r| r.name == "old.rs"));

    // `src` is removed outside the editor. A refresh of the *parent* (for example,
    // from a sibling operation) removes the row, but `src`'s listing and
    // expansion stay cached.
    s.fill_directory("/w",
        vec![Entry::file("Cargo.toml")],
    );

    let Outcome::FileOperation(made) = s.create_in_tree("src", true) else {
        panic!("expected a create");
    };
    s.file_operation_done(&made);
    s.fill_directory("/w",
        vec![
            Entry::dir("src"),
            Entry::file("Cargo.toml"),
        ],
    );

    assert!(
        !s.tree.rows()
            .iter()
            .any(|r| r.name == "old.rs"),
        "a new folder must not show the rows of the one that had its name"
    );
}

/// A repository with nothing changed, at `commit`.
fn scm_at(commit: &str) -> Found {
    Found { commit: Some(commit.to_owned()), rows: Vec::new(), selected: None }
}

fn changed(group: ScmGroup, name: &str) -> ScmRow {
    ScmRow {
        group,
        path: PathBuf::from(name),
        original: None,
        renamed: false,
        name: name.to_owned(),
    }
}

fn repository(rows: Vec<ScmRow>) -> Found {
    let selected = if rows.is_empty() { None } else { Some(0) };
    Found { commit: Some("1c9d4e5".to_owned()), rows, selected }
}

#[test]
fn the_marks_follow_the_buffer_rather_than_the_file_on_disk() {
    let mut s = with_tree();
    s.open(PathBuf::from("/w/a.rs"), "one\ntwo\n");
    s.fill_committed(PathBuf::from("/w/a.rs"), Some("one\ntwo\n".to_owned()));
    s.refresh_diffs();
    assert!(
        s.diff_marks(&PathBuf::from("/w/a.rs"))
            .expect("the committed text has arrived")
            .is_empty(),
        "nothing typed yet, so nothing differs"
    );

    // Typed, not saved. The gutter must describe the buffer, not the file on
    // disk.
    s.run("cursorEnd", None, 0);
    s.run("type", Some("!"), 0);
    s.refresh_diffs();
    let diff = s.diff_marks(&PathBuf::from("/w/a.rs")).expect("still open");
    assert_eq!(diff.mark_at(0), Some(Mark::Modified));
    assert_eq!(diff.mark_at(1), None, "and only the line that was touched");
}

#[test]
fn a_file_with_nothing_committed_is_all_addition() {
    let mut s = with_tree();
    s.open(PathBuf::from("/w/new.rs"), "one\ntwo\n");
    // `None` means the file is not in HEAD: it was added since the last
    // commit. Every line is marked as added, which differs from no marks.
    s.fill_committed(PathBuf::from("/w/new.rs"), None);

    s.refresh_diffs();
    let diff = s.diff_marks(&PathBuf::from("/w/new.rs")).expect("an answer");
    assert_eq!(diff.mark_at(0), Some(Mark::Added));
    assert_eq!(diff.mark_at(1), Some(Mark::Added));
}

#[test]
fn a_commit_somewhere_else_throws_the_committed_text_away() {
    let mut s = with_tree();
    s.open(PathBuf::from("/w/a.rs"), "one\n");
    s.fill_scm(Some(scm_at("1111111")));
    s.fill_committed(PathBuf::from("/w/a.rs"), Some("old\n".to_owned()));
    assert_eq!(s.committed_wanted(), None, "it has been answered");

    // A commit is made in a terminal. Every file's committed text may have
    // changed, and a gutter drawn against the old text would be wrong.
    s.fill_scm(Some(scm_at("2222222")));
    assert_eq!(
        s.committed_wanted(),
        Some(PathBuf::from("/w/a.rs")),
        "the file is asked about again rather than kept"
    );
}

#[test]
fn the_same_commit_reported_again_keeps_what_was_fetched() {
    let mut s = with_tree();
    s.open(PathBuf::from("/w/a.rs"), "one\n");
    s.fill_scm(Some(scm_at("1111111")));
    s.fill_committed(PathBuf::from("/w/a.rs"), Some("old\n".to_owned()));

    // A save refreshes the status without moving HEAD. Re-fetching every
    // open file's committed text on every save would start one process per
    // file each time, for data that has not changed.
    s.fill_scm(Some(scm_at("1111111")));
    assert_eq!(s.committed_wanted(), None);
}

#[test]
fn turning_the_decorations_off_stops_the_fetch_as_well_as_the_marks() {
    let mut s = with_tree();
    s.scm.decorations = false;
    s.open(PathBuf::from("/w/a.rs"), "one\n");
    assert_eq!(
        s.committed_wanted(),
        None,
        "a setting that only hid the marks would still pay for them"
    );
    s.fill_committed(PathBuf::from("/w/a.rs"), Some("other\n".to_owned()));
    s.refresh_diffs();
    assert!(s.diff_marks(&PathBuf::from("/w/a.rs")).is_none());
}

#[test]
fn a_renamed_file_does_not_keep_the_old_names_history() {
    let mut s = with_tree();
    s.open(PathBuf::from("/w/a.rs"), "one\n");
    s.fill_committed(PathBuf::from("/w/a.rs"), Some("one\n".to_owned()));

    let renamed = Operation::Rename {
        from: PathBuf::from("/w/a.rs"),
        to: PathBuf::from("/w/b.rs"),
        expect: None,
        directory: false,
    };
    s.file_operation_done(&renamed);

    // The entry is keyed by path. If it were kept, the next file named
    // `a.rs` would be diffed against another file's history.
    assert!(
        s.committed_wanted().is_some(),
        "the moved file is asked about under its new name"
    );
    assert!(s.diff_marks(&PathBuf::from("/w/a.rs")).is_none());
}

/// A repository with one modified and one untracked file.
fn dirty_status() -> Found {
    repository(vec![
        changed(ScmGroup::Changes, "work.rs"),
        changed(ScmGroup::Untracked, "new.rs"),
    ])
}

#[test]
fn the_side_bar_opens_on_the_tree_and_switches_to_source_control() {
    let mut s = with_tree();
    assert_eq!(s.side_bar_view(), SideBarView::Explorer);

    // One key opens the container, switches the view, and takes focus.
    assert!(matches!(
        s.run("workbench.view.scm", None, 0),
        Outcome::Handled
    ));
    assert_eq!(s.side_bar_view(), SideBarView::SourceControl);
    assert_eq!(s.focus(), Focus::SideBar);
    assert!(
        s.regions().side_bar.is_some(),
        "and the side bar is showing"
    );

    s.run("workbench.view.explorer", None, 0);
    assert_eq!(s.side_bar_view(), SideBarView::Explorer);
}

#[test]
fn the_list_keys_reach_whichever_tenant_is_showing() {
    let mut s = with_tree();
    s.fill_scm(Some(dirty_status()));
    s.run("workbench.view.scm", None, 0);

    s.run("list.focusDown", None, 0);
    assert_eq!(
        s.source_control().selection().unwrap().path.clone(),
        PathBuf::from("new.rs"),
        "the same `list.*` keys, and what has the keyboard decides"
    );

    // Back to the tree, and the same key moves the tree instead.
    s.run("workbench.view.explorer", None, 0);
    s.run("list.focusFirst", None, 0);
    s.run("list.focusDown", None, 0);
    assert_eq!(
        s.explorer().unwrap().selection.as_ref().unwrap().name,
        "Cargo.toml"
    );
    assert_eq!(
        s.source_control().selection().unwrap().path.clone(),
        PathBuf::from("new.rs"),
        "and the view that does not have the keyboard is left alone"
    );
}

#[test]
fn the_explorers_context_key_is_false_while_source_control_has_the_keyboard() {
    let mut s = with_tree();
    s.fill_scm(Some(dirty_status()));
    s.run("workbench.view.scm", None, 0);

    // `explorer.newFile` and the tree's `ctrl+z` are gated on
    // `filesExplorerFocus`. If it stayed true here, `ctrl+n` in the
    // source-control view would create a file in the hidden tree.
    assert_eq!(s.context.files_explorer_focus, false);
    assert_eq!(
        s.context.list_focus, true,
        "but it is still a list, and `list.*` is bound on that"
    );
    assert_eq!(s.context.scm_provider, true);
}

#[test]
fn the_trees_keys_do_not_reach_it_from_the_source_control_view() {
    let mut s = with_tree();
    s.fill_scm(Some(dirty_status()));
    s.run("workbench.view.scm", None, 0);

    // `sideBarFocus` is true for *both* views, so a binding gated only on it
    // would act on the hidden tree. For example, `ctrl+z` would undo a file
    // operation that is not shown on screen.
    for key in ["ctrl+z", "ctrl+n", "ctrl+shift+n", "f2", "delete"] {
        let outcome = s.press(key);
        assert!(
            matches!(outcome, Outcome::NotFound | Outcome::Handled),
            "{key} resolved to something in the source-control view: {outcome:?}"
        );
        assert!(
            s.prompt.is_none(),
            "{key} opened one of the tree's prompts from the wrong view"
        );
    }

    // And they still work where they belong.
    s.run("workbench.view.explorer", None, 0);
    s.press("ctrl+n");
    assert_eq!(
        s.prompt.as_ref().map(|p| p.kind()),
        Some(PromptKind::NewFile)
    );
}

#[test]
fn the_source_control_list_scrolls_with_its_selection() {
    let mut s = with_tree();
    let rows = (0..30).map(|n| changed(ScmGroup::Untracked, &format!("file{n:02}.rs"))).collect();
    s.fill_scm(Some(repository(rows)));
    s.resize(80, 14);
    s.run("workbench.view.scm", None, 0);

    assert_eq!(s.scm_scroll, 0);
    for _ in 0..29 {
        s.run("list.focusDown", None, 0);
    }
    // Otherwise the selection moves below the visible area, and the next stage acts on a file that
    // is not shown.
    assert!(s.scm_scroll > 0, "the list never scrolled: selection {:?}", s.scm.selected);
}

#[test]
fn a_folder_that_is_not_a_repository_empties_the_view() {
    let mut s = with_tree();
    s.fill_scm(Some(dirty_status()));
    assert!(!s.source_control().rows.is_empty());

    // git is unavailable, or the folder is no longer a working tree. The
    // previous list of files to stage must not remain.
    s.fill_scm(None);
    assert!(s.source_control().rows.is_empty());
    assert_eq!(s.context.scm_provider, false);
}

#[test]
fn enter_in_the_source_control_view_requests_the_selected_comparison() {
    let mut s = with_tree();
    s.fill_scm(Some(dirty_status()));
    s.run("workbench.view.scm", None, 0);

    let Outcome::GitComparison(request) = s.run("list.select", None, 0) else {
        panic!("expected a comparison request");
    };
    assert_eq!(request.path, PathBuf::from("work.rs"));
    assert_eq!(request.kind, ComparisonKind::WorkingTree);
    assert_eq!(
        s.focus(),
        Focus::Editor,
        "and the keyboard follows the diff, as it does out of the tree"
    );
}

#[test]
fn a_comparison_is_aligned_read_only_and_closes_back_to_the_tab() {
    let mut s = session();
    s.open(PathBuf::from("work.rs"), "the live tab\n");
    s.open_comparison(
        ComparisonKind::WorkingTree,
        Some("one\ntwo\nthree\n"),
        Some("one\ninserted\ntwo changed\nthree\n"),
    );

    let panes = s.panes();
    assert_eq!(panes.len(), 2);
    assert_eq!(panes[0].comparison.as_ref().unwrap().label, "Index");
    assert_eq!(panes[1].comparison.as_ref().unwrap().label, "Working Tree");
    assert_eq!(
        panes[0].document.body.lines().len(),
        panes[1].document.body.lines().len(),
        "alignment gaps keep both sides on the same row"
    );
    assert!(s.context.editor_readonly);

    assert!(matches!(s.press("x"), Outcome::Message(_)));
    assert_eq!(s.text(), "the live tab\n");
    s.run("workbench.action.closeActiveEditor", None, 0);
    assert!(!s.comparison_active());
    assert_eq!(s.text(), "the live tab\n");
}

#[test]
fn comparison_navigation_keeps_both_vertical_viewports_together() {
    let mut s = session();
    let original: String = (0..40).map(|line| format!("line {line}\n")).collect();
    let modified: String = (0..40).map(|line| format!("line {line} changed\n")).collect();
    s.open_comparison(ComparisonKind::WorkingTree, Some(&original), Some(&modified));
    s.resize(40, 5);
    s.run("cursorBottom", None, 0);

    let panes = s.panes();
    assert!(panes[1].view.scroll_top > 0);
    assert_eq!(panes[0].view.scroll_top, panes[1].view.scroll_top);
    assert_eq!(panes[0].view.scroll_row, panes[1].view.scroll_row);
}

#[test]
fn staging_names_the_selected_file_relative_to_the_repository() {
    let mut s = with_tree();
    s.fill_scm(Some(dirty_status()));
    s.run("workbench.view.scm", None, 0);

    let Outcome::GitOperation(op) = s.run("git.stage", None, 0) else {
        panic!("expected a stage");
    };
    assert_eq!(
        op,
        ScmOperation::Stage(PathBuf::from("work.rs")),
        "git answers about repository-relative paths, and the view holds them"
    );
}

#[test]
fn checkout_requires_clean_buffers_and_an_explicit_confirmation() {
    let mut s = with_tree();
    s.fill_scm(Some(dirty_status()));
    s.open(PathBuf::from("/w/a.rs"), "main\n");
    s.press(&'x'.to_string());
    assert!(
        matches!(s.run("git.checkout", None, 0), Outcome::Message(ref message) if message.contains("unsaved document")),
        "Git cannot protect text that only exists in the editor"
    );

    s.mark_saved();
    assert!(matches!(
        s.run("git.checkout", None, 0),
        Outcome::GitBranches
    ));
    s.offer_branches(vec![
        Branch {
            name: "main".to_owned(),
            current: true,
        },
        Branch {
            name: "feature".to_owned(),
            current: false,
        },
    ]);
    assert_eq!(
        s.prompt.as_ref().map(Asked::kind),
        Some(PromptKind::Branches)
    );
    assert!(matches!(
        press(&mut s, "enter"),
        Outcome::GitCheckoutPreview(ref target) if target == "feature"
    ));

    let plan = CheckoutPlan {
        current: "main".to_owned(),
        target: "feature".to_owned(),
        summary: "3 files differ; 1 staged, 1 untracked".to_owned(),
    };
    s.confirm_checkout(&plan);
    assert_eq!(
        s.prompt
            .as_ref()
            .and_then(Asked::selected)
            .map(|row| row.id.as_str()),
        Some(CHECKOUT_CANCEL),
        "enter alone must be the safe answer"
    );
    assert!(matches!(press(&mut s, "enter"), Outcome::Message(_)));

    s.confirm_checkout(&plan);
    s.prompt.as_mut().expect("confirmation").next();
    assert!(matches!(
        press(&mut s, "enter"),
        Outcome::GitOperation(ScmOperation::Checkout(ref target)) if target == "feature"
    ));
}

#[test]
fn a_completed_checkout_reloads_clean_tabs_and_drops_old_history() {
    let mut s = session();
    let path = PathBuf::from("/w/a.rs");
    s.open(path.clone(), "main\n");
    s.press(&'x'.to_string());
    s.mark_saved();
    s.run("undo", None, 0);
    assert_eq!(
        s.text(),
        "main\n",
        "the old history existed"
    );

    s.git_operation_done(&ScmOperation::Checkout("feature".to_owned()), "switched to feature");
    assert!(s.take_checkout_completed());
    assert!(!s.take_checkout_completed(), "the signal is consumed once");
    assert!(s.reload_open(&path, "feature\n"));
    assert_eq!(s.text(), "feature\n");
    assert!(!s.active.document.dirty);
    s.run("undo", None, 0);
    assert_eq!(
        s.text(),
        "feature\n",
        "undo from the old branch cannot cross the checkout"
    );
}

#[test]
fn staging_something_already_staged_is_refused_rather_than_run() {
    let mut s = with_tree();
    s.fill_scm(Some(repository(vec![changed(ScmGroup::Staged, "work.rs")])));
    s.run("workbench.view.scm", None, 0);

    // `git add` would succeed without effect, and the message would
    // incorrectly report that something was staged.
    assert!(matches!(s.run("git.stage", None, 0), Outcome::Message(_)));
    assert!(
        matches!(s.run("git.stageAll", None, 0), Outcome::Message(_)),
        "and there is nothing left to stage either"
    );
}

#[test]
fn unstaging_something_that_is_not_staged_is_refused() {
    let mut s = with_tree();
    s.fill_scm(Some(dirty_status()));
    s.run("workbench.view.scm", None, 0);
    assert!(matches!(s.run("git.unstage", None, 0), Outcome::Message(_)));
}

#[test]
fn unstaging_a_copy_does_not_include_its_source() {
    let mut s = with_tree();
    s.fill_scm(Some(repository(vec![ScmRow {
        original: Some(PathBuf::from("source.rs")),
        ..changed(ScmGroup::Staged, "copy.rs")
    }])));
    s.run("workbench.view.scm", None, 0);

    let Outcome::GitOperation(ScmOperation::Unstage { path, original }) =
        s.run("git.unstage", None, 0)
    else {
        panic!("expected an unstage");
    };
    assert_eq!(path, PathBuf::from("copy.rs"));
    assert_eq!(
        original, None,
        "the copy source may have staged changes of its own"
    );
}

#[test]
fn committing_with_nothing_staged_never_asks_for_a_message() {
    let mut s = with_tree();
    s.fill_scm(Some(dirty_status()));
    s.run("workbench.view.scm", None, 0);

    // Rejected before the prompt opens, so a typed message is not lost.
    assert!(matches!(s.run("git.commit", None, 0), Outcome::Message(_)));
    assert!(s.prompt.is_none());
}

#[test]
fn committing_asks_for_a_message_and_refuses_an_empty_one() {
    let mut s = with_tree();
    s.fill_scm(Some(repository(vec![changed(ScmGroup::Staged, "work.rs")])));
    s.run("workbench.view.scm", None, 0);
    s.run("git.commit", None, 0);
    assert_eq!(
        s.prompt.as_ref().map(|p| p.kind()),
        Some(PromptKind::CommitMessage)
    );

    // Enter on an empty input usually dismisses the prompt.
    assert!(matches!(s.press("enter"), Outcome::Message(_)));

    s.run("git.commit", None, 0);
    for c in "a real message".chars() {
        s.press(&c.to_string());
    }
    let Outcome::GitOperation(op) = s.press("enter") else {
        panic!("expected a commit");
    };
    assert_eq!(op, ScmOperation::Commit("a real message".to_owned()));
}

#[test]
fn a_repository_change_asks_git_again_rather_than_guessing() {
    let mut s = with_tree();
    // As the frontend does: mark the run as started, then supply the result.
    s.scm_started();
    s.fill_scm(Some(dirty_status()));
    assert!(!s.scm_wanted(), "the status has been answered");

    // The view is not adjusted here. Only git knows the current index, and
    // a predicted state would diverge as soon as a hook ran.
    s.git_operation_done(&ScmOperation::Stage(PathBuf::from("work.rs")), "staged work.rs");
    assert!(s.scm_wanted());
    assert_eq!(s.status.as_deref(), Some("staged work.rs"));
}

#[test]
fn a_refused_change_still_asks_git_again() {
    let mut s = with_tree();
    s.fill_scm(Some(dirty_status()));
    // A failure usually means the view's state of the index was out of date.
    s.git_operation_failed("stage everything", "index.lock exists");
    assert!(s.scm_wanted());
    assert!(s.status.as_deref().unwrap().contains("index.lock"));
}

#[test]
fn a_folder_that_could_not_be_made_still_clears_what_was_there() {
    let mut s = with_tree();
    s.run("workbench.files.action.focusFilesExplorer", None, 0);
    s.run("list.expand", None, 0); // open `src`
    s.fill_directory("/w/src",
        vec![Entry::file("old.rs")],
    );

    // `src` is removed outside the editor. A refresh of the parent removes its row,
    // but its listing and expansion stay cached.
    s.fill_directory("/w",
        vec![Entry::file("Cargo.toml")],
    );

    // The editor tries to create a folder named `src`, because the tree shows the
    // name as free. It fails, because another program recreated `src` in
    // the meantime.
    let Outcome::FileOperation(made) = s.create_in_tree("src", true) else {
        panic!("expected a create");
    };
    s.file_operation_failed(&made, "File exists (os error 17)");
    s.fill_directory("/w",
        vec![
            Entry::dir("src"),
            Entry::file("Cargo.toml"),
        ],
    );

    assert!(
        !s.tree.rows()
            .iter()
            .any(|r| r.name == "old.rs"),
        "a stranger's directory must not be drawn with the dead one's rows"
    );
}

#[test]
fn a_rename_that_failed_does_not_dress_the_blocker_in_old_rows() {
    let mut s = with_tree();
    s.fill_directory("/w",
        vec![
            Entry::dir("a"),
            Entry::dir("b"),
        ],
    );
    s.run("workbench.files.action.focusFilesExplorer", None, 0);
    s.run("list.focusFirst", None, 0);
    s.run("list.expand", None, 0); // `a`
    s.fill_directory("/w/a",
        vec![Entry::file("mine.rs")],
    );
    while s.tree.selection()
        .map(|row| row.path != PathBuf::from("/w/b"))
        .unwrap_or(false)
    {
        s.run("list.focusDown", None, 0);
    }
    s.run("list.expand", None, 0); // `b`
    s.fill_directory("/w/b",
        vec![Entry::file("theirs.rs")],
    );

    // `b` is removed outside the editor, and only the parent is refreshed.
    s.fill_directory("/w", vec![Entry::dir("a")]);

    // Renaming `a` to the free name `b` fails, because another program
    // recreated `b` after the tree was read.
    s.run("workbench.files.action.focusFilesExplorer", None, 0);
    s.run("list.focusFirst", None, 0);
    let Outcome::FileOperation(renamed) = s.rename_in_tree("b") else {
        panic!("expected a rename");
    };
    s.file_operation_failed(&renamed, "File exists (os error 17)");
    s.fill_directory("/w",
        vec![
            Entry::dir("a"),
            Entry::dir("b"),
        ],
    );

    let names: Vec<String> = s.tree.rows()
        .into_iter()
        .map(|r| r.name)
        .collect();
    assert!(
        !names.contains(&"theirs.rs".to_owned()),
        "whatever now holds `b` is not the `b` that had these: {names:?}"
    );
    assert!(
        names.contains(&"mine.rs".to_owned()),
        "and the source, which did not move, keeps its own: {names:?}"
    );
}

#[test]
fn a_renamed_directory_does_not_inherit_the_destinations_leftovers() {
    // Selects the row for a path, regardless of the tree's shape. The test
    // must rename the intended row, and the clamp after a refill can move
    // the selection.
    fn focus(s: &mut Editor, path: &str) {
        s.run("workbench.files.action.focusFilesExplorer", None, 0);
        s.run("list.focusFirst", None, 0);
        for _ in 0..64 {
            let at = s.tree.selection()
                .is_some_and(|row| row.path == PathBuf::from(path));
            if at {
                return;
            }
            s.run("list.focusDown", None, 0);
        }
        panic!("no row for {path}");
    }

    let mut s = with_tree();
    s.fill_directory("/w",
        vec![
            Entry::dir("a"),
            Entry::dir("b"),
        ],
    );

    // `a` contains a directory that is not expanded. After the rename its
    // listing must be requested rather than taken from the cache.
    focus(&mut s, "/w/a");
    s.run("list.expand", None, 0);
    s.fill_directory("/w/a",
        vec![
            Entry::dir("sub"),
            Entry::file("mine.rs"),
        ],
    );

    // `b` contains a directory with the same name, and *that* one is
    // expanded. The tree therefore caches state one level below `b` that
    // re-keying `a` cannot overwrite, because `a` has no listing that deep.
    focus(&mut s, "/w/b");
    s.run("list.expand", None, 0);
    s.fill_directory("/w/b", vec![Entry::dir("sub")]);
    focus(&mut s, "/w/b/sub");
    s.run("list.expand", None, 0);
    s.fill_directory("/w/b/sub",
        vec![Entry::file("theirs.rs")],
    );
    assert!(s.tree.rows()
        .iter()
        .any(|r| r.name == "theirs.rs"));

    // `b` is removed outside the editor, and a later refresh of the parent removes
    // its row, but its listings and expansions stay cached.
    s.fill_directory("/w", vec![Entry::dir("a")]);

    // Rename `a` to the free name `b`.
    focus(&mut s, "/w/a");
    let Outcome::FileOperation(renamed) = s.rename_in_tree("b") else {
        panic!("expected a rename");
    };
    s.file_operation_done(&renamed);
    s.fill_directory("/w", vec![Entry::dir("b")]);

    let names: Vec<String> = s.tree.rows()
        .into_iter()
        .map(|r| r.name)
        .collect();
    assert!(
        names.contains(&"mine.rs".to_owned()),
        "the renamed directory keeps its own contents: {names:?}"
    );
    assert!(
        !names.contains(&"theirs.rs".to_owned()),
        "and none of what the old `b` left behind: {names:?}"
    );
}

#[test]
fn a_delete_cannot_be_undone_and_does_not_offer_an_older_one() {
    let mut s = with_tree();
    s.run("workbench.files.action.focusFilesExplorer", None, 0);
    let Outcome::FileOperation(create) = s.create_in_tree("new.rs", false) else {
        panic!("expected an operation");
    };
    s.file_operation_done(&create);
    s.run("workbench.files.action.focusFilesExplorer", None, 0);
    assert!(s.can_undo_file_operation());

    // Delete something. `ctrl+z` must not then undo the older create.
    s.run("list.focusDown", None, 0);
    let Outcome::FileOperation(deleted) = s.delete_in_tree() else {
        panic!("expected an operation");
    };
    // The stack is cleared after the delete succeeds, not when it is
    // requested, so a failed delete keeps the earlier undo entries.
    s.file_operation_done(&deleted);
    assert!(
        !s.can_undo_file_operation(),
        "a delete clears the stack rather than hiding under it"
    );
    assert!(matches!(s.run("undo", None, 0), Outcome::Message(_)));
}

#[test]
fn an_operation_the_disk_refused_comes_back_off_the_stack() {
    let mut s = with_tree();
    s.run("workbench.files.action.focusFilesExplorer", None, 0);
    let Outcome::FileOperation(operation) = s.create_in_tree("new.rs", false) else {
        panic!("expected an operation");
    };
    assert!(s.can_undo_file_operation());

    s.file_operation_failed(&operation, "permission denied");
    assert!(
        !s.can_undo_file_operation(),
        "nothing happened, so there is nothing to undo"
    );
}

#[test]
fn the_trees_undo_does_not_touch_the_text() {
    let mut s = with_tree();
    s.open(PathBuf::from("/w/Cargo.toml"), "[package]\n");
    s.run("workbench.files.action.focusFilesExplorer", None, 0);
    let Outcome::FileOperation(create) = s.create_in_tree("new.rs", false) else {
        panic!("expected an operation");
    };
    s.file_operation_done(&create);

    // In the text, `ctrl+z` runs the document's undo.
    s.run("workbench.action.focusActiveEditorGroup", None, 0);
    assert_ne!(
        s.run("undo", None, 0),
        Outcome::FileOperation(Operation::DeleteIfEmpty {
            path: PathBuf::from("/w/src/new.rs"),
            directory: false,
            expect: None,
        }),
        "undo in the text must not move files"
    );
}

#[test]
fn a_region_that_does_not_fit_is_remembered_and_says_so() {
    // Without a message, the key would appear to be ignored. The *state* is
    // kept, so widening the window shows the region without another press.
    let mut s = session();
    s.resize(24, 24);

    let outcome = s.run("workbench.action.toggleSidebarVisibility", None, 0);
    assert_eq!(
        outcome,
        Outcome::Message("no room for the side bar in this window".to_owned())
    );
    assert!(s.regions().side_bar.is_none());

    s.resize(100, 24);
    assert!(
        s.regions().side_bar.is_some(),
        "a wider window shows what was already asked for"
    );
}

#[test]
fn toggling_the_side_bar_leaves_the_keyboard_in_the_text() {
    let mut s = session();
    s.resize(80, 24);
    press(&mut s, "ctrl+b");

    assert_eq!(s.focus(), Focus::Editor);
    assert_eq!(s.context.side_bar_focus, false);
    assert_eq!(s.context.editor_text_focus, true);
}

#[test]
fn focusing_a_region_shows_it_first() {
    // A hidden region must never receive focus.
    let mut s = session();
    s.resize(80, 24);

    assert_eq!(
        s.run("workbench.action.focusPanel", None, 0),
        Outcome::Handled
    );
    assert!(s.regions().panel.is_some());
    assert_eq!(s.focus(), Focus::Panel);
    assert_eq!(s.context.panel_focus, true);
    assert_eq!(s.context.editor_text_focus, false);
}

#[test]
fn hiding_the_region_that_has_the_keyboard_gives_it_back() {
    let mut s = session();
    s.resize(80, 24);
    s.run("workbench.action.focusSideBar", None, 0);
    assert_eq!(s.focus(), Focus::SideBar);

    press(&mut s, "ctrl+b");
    assert_eq!(
        s.focus(),
        Focus::Editor,
        "the keyboard is nowhere otherwise"
    );
    assert_eq!(s.context.editor_text_focus, true);
}

#[test]
fn a_region_with_the_keyboard_does_not_get_typed_into() {
    // Every editing command acts on the document, which does not have focus.
    // The fallback for unbound printable keys is also blocked, which is why
    // the guard is on the command rather than on the binding.
    let mut s = session();
    s.open(PathBuf::from("/w/a.txt"), "hello\n");
    s.resize(80, 24);
    s.run("workbench.action.focusSideBar", None, 0);

    press(&mut s, "x");
    press(&mut s, "enter");
    press(&mut s, "backspace");
    s.run("editor.action.selectAll", None, 0);

    assert_eq!(s.text(), "hello\n", "untouched");
    assert!(!s.active.document.dirty);

    // Typing works again as soon as the editor has focus.
    s.run("workbench.action.focusActiveEditorGroup", None, 0);
    press(&mut s, "x");
    assert_eq!(s.text(), "xhello\n");
}

#[test]
fn the_side_bar_goes_where_the_setting_says() {
    let mut s = session();
    s.right_side = true;
    s.resize(80, 24);
    press(&mut s, "ctrl+b");

    let regions = s.regions();
    assert_eq!(regions.editor.left, 0, "the text keeps the left edge");
    assert!(regions.side_bar.expect("showing").left > regions.editor.left);
}

#[test]
fn an_unimplemented_command_says_which_feature_it_is() {
    // The panel exists, but the terminal that this key opens is not
    // implemented.
    let mut s = searchable("x\n");
    assert_eq!(
        s.run("workbench.action.terminal.toggleTerminal", None, 0),
        Outcome::Message("Toggle Terminal is not implemented yet".to_owned())
    );
    assert_eq!(
        s.status.as_deref(),
        Some("Toggle Terminal is not implemented yet")
    );
}

#[test]
fn an_identifier_that_does_not_exist_says_that_instead() {
    // Different from "not implemented yet". This is usually a typo in a
    // keybindings.json rather than a missing feature.
    let mut s = searchable("x\n");
    assert_eq!(s.run("editor.action.nonsense", None, 0), Outcome::NotFound);
    assert_eq!(
        s.status.as_deref(),
        Some("there is no command `editor.action.nonsense`")
    );
}

// ---- Go to symbol -----------------------------------------------------

#[test]
fn symbols_open_a_prompt_that_counts_symbols() {
    let mut s = searchable("x\n");
    s.offer_symbols(vec![
        at("/w/a.txt", "Counter", Position::new(0, 11))
            .with_detail("struct"),
        at("/w/a.txt", "Counter.bump", Position::new(3, 11))
            .with_detail("method"),
    ]);
    let prompt = s.prompt.as_ref().expect("a prompt should be open");
    assert_eq!(prompt.kind(), PromptKind::Symbols);
    assert_eq!(prompt.matches(), 2);
}

#[test]
fn accepting_a_symbol_asks_for_the_document_and_the_position() {
    // Uses the same path as a search result. For a document that is already
    // open, this switches to its own tab, so unsaved changes are kept.
    let mut s = searchable("x\n");
    s.offer_symbols(vec![at(
        "/w/a.txt",
        "Counter.bump",
        Position::new(3, 11),
    )
    .with_detail("method")]);
    assert_eq!(
        press(&mut s, "enter"),
        Outcome::OpenFile {
            path: PathBuf::from("/w/a.txt"),
            at: Some(Position::new(3, 11)),
        }
    );
}

#[test]
fn a_symbol_can_be_found_by_typing_part_of_its_name() {
    let mut s = searchable("x\n");
    s.offer_symbols(vec![
        at("/w/a.txt", "Counter.value", Position::new(1, 4)),
        at("/w/a.txt", "Counter.bump", Position::new(3, 11)),
    ]);
    for key in ["b", "u", "m", "p"] {
        press(&mut s, key);
    }
    let prompt = s.prompt.as_ref().expect("still open");
    assert_eq!(prompt.matches(), 1);
    assert_eq!(
        prompt
            .selected()
            .map(|entry| entry.title.clone())
            .as_deref(),
        Some("Counter.bump")
    );
}

#[test]
fn nothing_matching_what_was_typed_says_so_rather_than_closing_silently() {
    let mut s = searchable("x\n");
    s.offer_symbols(vec![at(
        "/w/a.txt",
        "Counter",
        Position::new(0, 11),
    )]);
    for key in ["z", "z", "z"] {
        press(&mut s, key);
    }
    assert_eq!(
        press(&mut s, "enter"),
        Outcome::Message("no symbol matches `zzz`".to_owned())
    );
}

#[test]
fn a_file_with_no_symbols_says_that_rather_than_opening_an_empty_prompt() {
    let mut s = searchable("x\n");
    s.offer_symbols(Vec::new());
    assert!(s.prompt.is_none());
    assert_eq!(
        s.status.as_deref(),
        Some("this server found no symbols in this file")
    );
}

#[test]
fn go_to_symbol_is_the_frontends_command_since_it_needs_a_server() {
    let mut s = searchable("x\n");
    assert_eq!(
        s.run("workbench.action.gotoSymbol", None, 0),
        Outcome::Frontend("workbench.action.gotoSymbol".to_owned())
    );
}

#[test]
fn the_palette_gives_every_command_its_identifier_as_a_second_column() {
    // `keybindings.json` refers to the identifier, and the title does not
    // show it.
    let s = searchable("x\n");
    let palette = s.palette();
    assert!(!palette.is_empty());
    assert!(palette
        .iter()
        .all(|entry| entry.detail.as_deref() == Some(entry.id.as_str())));
}

// ---- Tabs -------------------------------------------------------------

/// Titles in display order, with `*` marking the active tab.
fn tabs(s: &Editor) -> Vec<String> {
    s.tab_labels()
        .iter()
        .map(|label| {
            if label.active {
                format!("*{}", label.title)
            } else {
                label.title.clone()
            }
        })
        .collect()
}

#[test]
fn a_session_starts_with_one_tab() {
    let s = session();
    assert_eq!(s.tab_count(), 1);
    assert_eq!(tabs(&s), vec!["*Untitled"]);
}

#[test]
fn opening_a_file_replaces_a_pristine_untitled_tab() {
    // Starting on a file must not start with an empty tab beside the file.
    let mut s = session();
    s.open(PathBuf::from("/w/a.rs"), "a\n");
    assert_eq!(tabs(&s), vec!["*a.rs"]);
}

#[test]
fn opening_a_second_file_adds_a_tab_and_focuses_it() {
    let mut s = session();
    s.open(PathBuf::from("/w/a.rs"), "a\n");
    s.open(PathBuf::from("/w/b.rs"), "b\n");
    assert_eq!(tabs(&s), vec!["a.rs", "*b.rs"]);
    assert_eq!(s.text(), "b\n");
}

#[test]
fn an_untitled_tab_with_typing_in_it_is_not_replaced() {
    let mut s = session();
    press(&mut s, "x");
    s.open(PathBuf::from("/w/a.rs"), "a\n");
    assert_eq!(tabs(&s), vec!["Untitled", "*a.rs"]);
}

#[test]
fn opening_an_already_open_file_switches_to_its_tab() {
    let mut s = session();
    s.open(PathBuf::from("/w/a.rs"), "a\n");
    s.open(PathBuf::from("/w/b.rs"), "b\n");
    s.open(PathBuf::from("/w/a.rs"), "a\n");
    assert_eq!(s.tab_count(), 2, "no third tab for a file already open");
    assert_eq!(tabs(&s), vec!["*a.rs", "b.rs"]);
}

#[test]
fn ctrl_tab_cycles_forward_and_wraps() {
    let mut s = session();
    s.open(PathBuf::from("/w/a.rs"), "a\n");
    s.open(PathBuf::from("/w/b.rs"), "b\n");
    s.open(PathBuf::from("/w/c.rs"), "c\n");
    assert_eq!(tabs(&s), vec!["a.rs", "b.rs", "*c.rs"]);
    press(&mut s, "ctrl+tab");
    assert_eq!(
        tabs(&s),
        vec!["*a.rs", "b.rs", "c.rs"],
        "wrapped to the first"
    );
    press(&mut s, "ctrl+tab");
    assert_eq!(tabs(&s), vec!["a.rs", "*b.rs", "c.rs"]);
    press(&mut s, "ctrl+shift+tab");
    assert_eq!(tabs(&s), vec!["*a.rs", "b.rs", "c.rs"]);
    press(&mut s, "ctrl+shift+tab");
    assert_eq!(tabs(&s), vec!["a.rs", "b.rs", "*c.rs"], "wrapped backwards");
}

#[test]
fn each_tab_keeps_its_own_cursor_and_text() {
    let mut s = session();
    s.open(PathBuf::from("/w/a.rs"), "aaaa\n");
    s.run("type", Some("x"), 0);
    let cursor_in_a = s.caret();
    s.open(PathBuf::from("/w/b.rs"), "b\n");
    assert_eq!(s.text(), "b\n");
    press(&mut s, "ctrl+tab");
    assert_eq!(s.text(), "xaaaa\n");
    assert_eq!(s.caret(), cursor_in_a);
}

#[test]
fn each_tab_keeps_its_own_diagnostics() {
    let mut s = session();
    s.open(PathBuf::from("/w/a.rs"), "a\n");
    s.set_diagnostics(vec![diagnostic(
        0,
        Severity::Error,
        "problem in a",
    )]);
    s.open(PathBuf::from("/w/b.rs"), "b\n");
    assert!(s.active.diagnostics.is_empty(), "b has no problems");
    press(&mut s, "ctrl+tab");
    assert_eq!(s.active.diagnostics.len(), 1, "a's diagnostics came back with it");
    assert_eq!(s.active.diagnostics[0].label, "problem in a");
}

#[test]
fn undo_history_survives_a_round_trip_through_the_background() {
    let mut s = session();
    s.open(PathBuf::from("/w/a.txt"), "");
    press_all(&mut s, &["h", "i"]);
    s.open(PathBuf::from("/w/b.txt"), "b\n");
    press(&mut s, "ctrl+tab");
    s.run("undo", None, 0);
    assert_eq!(s.text(), "", "a's history still works");
}

#[test]
fn switching_tabs_parks_the_find_bar_with_its_own_tab() {
    // The bar belongs to the tab, so switching away keeps it with the tab
    // instead of discarding it, and switching back restores it as it was.
    let mut s = session();
    s.resize(80, 10);
    s.open(PathBuf::from("/w/a.txt"), "foo\n");
    s.open(PathBuf::from("/w/b.txt"), "bar\n");
    press(&mut s, "ctrl+f");
    press(&mut s, "b");
    assert!(s.active.find.visible);
    assert_eq!(s.active.find.matches.len(), 1, "b.txt has one `b`");

    // To a.txt, which has no bar of its own.
    press(&mut s, "ctrl+tab");
    assert!(!s.active.find.visible, "a.txt was never searched");
    assert_eq!(
        s.active.find.query,
        "b",
        "the search string is shared, as it is in VS Code"
    );

    // And back.
    press(&mut s, "ctrl+tab");
    assert!(s.active.find.visible, "b.txt's bar is where it was left");
    assert_eq!(s.active.find.matches.len(), 1);
}

#[test]
fn two_tabs_can_be_searching_for_different_things() {
    let mut s = session();
    s.resize(80, 10);
    s.open(PathBuf::from("/w/a.txt"), "aaa\n");
    press(&mut s, "ctrl+f");
    press(&mut s, "a");
    s.open(PathBuf::from("/w/b.txt"), "bbbb\n");
    press(&mut s, "ctrl+f");
    // The query was carried over, so replace it.
    press(&mut s, "ctrl+x");
    press(&mut s, "b");
    assert_eq!(s.active.find.matches.len(), 4);

    press(&mut s, "ctrl+shift+tab");
    assert_eq!(s.active.find.query, "a", "a.txt kept its own");
    assert_eq!(s.active.find.matches.len(), 3);
}

#[test]
fn a_new_document_in_the_same_tab_still_drops_the_matches() {
    // `open` on an unmodified untitled tab replaces the document rather than
    // adding a tab, so the matches are stale.
    let mut s = session();
    s.resize(80, 10);
    press(&mut s, "ctrl+f");
    press(&mut s, "x");
    s.open(PathBuf::from("/w/a.txt"), "xxx\n");
    assert!(!s.active.find.visible);
    assert_eq!(s.active.find.query, "x", "the query still survives");
}

#[test]
fn closing_a_tab_moves_to_its_neighbour() {
    let mut s = session();
    s.open(PathBuf::from("/w/a.rs"), "a\n");
    s.open(PathBuf::from("/w/b.rs"), "b\n");
    s.open(PathBuf::from("/w/c.rs"), "c\n");
    press(&mut s, "ctrl+shift+tab");
    assert_eq!(tabs(&s), vec!["a.rs", "*b.rs", "c.rs"]);
    press(&mut s, "ctrl+w");
    assert_eq!(
        tabs(&s),
        vec!["a.rs", "*c.rs"],
        "the right neighbour takes over"
    );
    press(&mut s, "ctrl+w");
    assert_eq!(
        tabs(&s),
        vec!["*a.rs"],
        "no right neighbour, so the left one"
    );
}

#[test]
fn closing_a_dirty_tab_is_refused_with_its_name() {
    let mut s = session();
    s.open(PathBuf::from("/w/a.rs"), "a\n");
    press(&mut s, "x");
    assert_eq!(
        press(&mut s, "ctrl+w"),
        Outcome::Message("a.rs has unsaved changes — save it first".to_owned())
    );
    assert_eq!(s.tab_count(), 1, "nothing was closed");
    assert_eq!(s.text(), "xa\n", "nothing was lost");
}

#[test]
fn closing_the_last_tab_leaves_an_untitled_document() {
    let mut s = session();
    s.open(PathBuf::from("/w/a.rs"), "a\n");
    press(&mut s, "ctrl+w");
    assert_eq!(tabs(&s), vec!["*Untitled"]);
    assert_eq!(s.text(), "");
    assert_eq!(s.tab_count(), 1);
}

#[test]
fn ctrl_n_opens_a_new_untitled_tab() {
    let mut s = session();
    s.open(PathBuf::from("/w/a.rs"), "a\n");
    press(&mut s, "ctrl+n");
    assert_eq!(tabs(&s), vec!["a.rs", "*Untitled"]);
    press_all(&mut s, &["h", "i"]);
    assert_eq!(s.text(), "hi");
    press(&mut s, "ctrl+tab");
    assert_eq!(s.text(), "a\n", "the file is untouched");
}

#[test]
fn cycling_with_one_tab_does_nothing() {
    let mut s = session();
    s.open(PathBuf::from("/w/a.rs"), "a\n");
    press(&mut s, "ctrl+tab");
    assert_eq!(tabs(&s), vec!["*a.rs"]);
}

#[test]
fn a_background_tab_adopts_the_current_terminal_size_when_it_returns() {
    let mut s = session();
    s.open(PathBuf::from("/w/a.rs"), "a\n");
    s.open(PathBuf::from("/w/b.rs"), "b\n");
    // The terminal was resized while `a.rs` was in the background.
    s.resize(120, 40);
    press(&mut s, "ctrl+tab");
    assert_eq!((s.active.view.width, s.active.view.height), (120, 40));
}

#[test]
fn tab_labels_carry_the_dirty_flag() {
    let mut s = session();
    s.open(PathBuf::from("/w/a.rs"), "a\n");
    press(&mut s, "x");
    s.run("workbench.action.files.newUntitledFile", None, 0);
    let labels = s.tab_labels();
    assert!(labels[0].dirty, "a.rs was edited");
    assert!(!labels[1].dirty);
    assert!(labels[1].active);
}

#[test]
fn ctrl_g_opens_a_go_to_line_prompt() {
    let mut s = searchable("a\nb\nc\n");
    press(&mut s, "ctrl+g");
    let prompt = s.prompt.as_ref().expect("a prompt should be open");
    assert_eq!(prompt.kind(), PromptKind::GoToLine);
    assert!(
        !prompt.has_list(),
        "a line number is not chosen from a list"
    );
    assert_eq!(s.context.in_quick_open, true);
    assert_eq!(s.context.editor_text_focus, false);
}

#[test]
fn typing_a_line_number_and_pressing_enter_jumps_there() {
    let mut s = searchable("one\ntwo\nthree\nfour\n");
    press(&mut s, "ctrl+g");
    press(&mut s, "3");
    assert_eq!(s.prompt.as_ref().unwrap().text(), "3");
    assert_eq!(s.text(), "one\ntwo\nthree\nfour\n");
    press(&mut s, "enter");
    assert!(s.prompt.is_none(), "accepting closes the prompt");
    assert_eq!(s.caret(), Position::new(2, 0));
    assert_eq!(s.context.editor_text_focus, true);
}

#[test]
fn a_line_and_column_are_both_honoured() {
    let mut s = searchable("one\ntwo\nthree\n");
    press(&mut s, "ctrl+g");
    for key in ["3", ":", "4"] {
        press(&mut s, key);
    }
    press(&mut s, "enter");
    assert_eq!(s.caret(), Position::new(2, 3));
}

#[test]
fn a_column_past_the_end_of_the_line_lands_at_its_end() {
    let mut s = searchable("one\ntwo\n");
    press(&mut s, "ctrl+g");
    for key in ["1", ":", "9", "9"] {
        press(&mut s, key);
    }
    press(&mut s, "enter");
    assert_eq!(s.caret(), Position::new(0, 3));
}

#[test]
fn a_line_outside_the_document_says_so_and_says_the_range() {
    let mut s = searchable("one\ntwo\n");
    press(&mut s, "ctrl+g");
    for key in ["9", "9"] {
        press(&mut s, key);
    }
    let outcome = press(&mut s, "enter");
    assert_eq!(
        outcome,
        Outcome::Message("line 99 is outside 1-3".to_owned())
    );
    assert_eq!(s.caret(), Position::new(0, 0));
}

#[test]
fn something_that_is_not_a_number_is_refused() {
    let mut s = searchable("one\n");
    press(&mut s, "ctrl+g");
    for key in ["a", "b"] {
        press(&mut s, key);
    }
    assert_eq!(
        press(&mut s, "enter"),
        Outcome::Message("`ab` is not a line number".to_owned())
    );
}

#[test]
fn escape_closes_the_prompt_without_moving_the_cursor() {
    let mut s = searchable("one\ntwo\nthree\n");
    press(&mut s, "ctrl+g");
    press(&mut s, "3");
    press(&mut s, "escape");
    assert!(s.prompt.is_none());
    assert_eq!(s.caret(), Position::new(0, 0));
}

#[test]
fn typing_into_a_prompt_never_reaches_the_document() {
    let mut s = searchable("x\n");
    press(&mut s, "ctrl+g");
    for key in ["1", "2", "backspace", "ctrl+z", "tab"] {
        press(&mut s, key);
    }
    assert_eq!(s.text(), "x\n");
    assert_eq!(s.prompt.as_ref().unwrap().text(), "1");
}

#[test]
fn ctrl_shift_p_opens_the_palette_with_every_command() {
    let mut s = searchable("x\n");
    press(&mut s, "ctrl+shift+p");
    let prompt = s.prompt.as_ref().expect("a prompt should be open");
    assert_eq!(prompt.kind(), PromptKind::Commands);
    assert!(prompt.has_list());
    assert_eq!(prompt.matches(), COMMANDS.len());
}

#[test]
fn the_palette_offers_the_frontends_commands_too() {
    let mut s = searchable("x\n");
    s.frontend_commands.push(PaletteEntry::new(
        "editor.action.showHover",
        "Show Hover",
    ));
    press(&mut s, "ctrl+shift+p");
    assert_eq!(
        s.prompt.as_ref().unwrap().matches(),
        COMMANDS.len() + 1
    );
}

#[test]
fn choosing_a_command_from_the_palette_runs_it() {
    // A Rust file, because `commentLine` needs the language to have a token.
    let mut s = session();
    s.open(PathBuf::from("/w/a.rs"), "fn main() {}\n");
    s.resize(80, 10);
    press(&mut s, "ctrl+shift+p");
    for c in "toggle line".chars() {
        press(&mut s, &c.to_string().replace(' ', "space"));
    }
    assert_eq!(
        s.prompt.as_ref().unwrap().selected().unwrap().id,
        "editor.action.commentLine"
    );
    press(&mut s, "enter");
    assert!(s.prompt.is_none());
    assert_eq!(s.text(), "// fn main() {}\n");
}

#[test]
fn a_frontend_routed_command_chosen_from_the_palette_reaches_the_frontend() {
    let mut s = searchable("x\n");
    s.frontend_commands.push(PaletteEntry::new(
        "editor.action.showHover",
        "Show Hover",
    ));
    press(&mut s, "ctrl+shift+p");
    for c in "hover".chars() {
        press(&mut s, &c.to_string());
    }
    assert_eq!(
        press(&mut s, "enter"),
        Outcome::Frontend("editor.action.showHover".to_owned())
    );
}

#[test]
fn a_palette_command_that_opens_a_prompt_of_its_own_works() {
    // This works because `accept_prompt` takes the prompt rather than
    // borrowing it.
    let mut s = searchable("one\ntwo\n");
    s.frontend_commands.push(PaletteEntry::new(
        "workbench.action.gotoLine",
        "Go to Line",
    ));
    press(&mut s, "ctrl+shift+p");
    for c in "go to".chars() {
        press(&mut s, &c.to_string().replace(' ', "space"));
    }
    press(&mut s, "enter");
    let prompt = s.prompt.as_ref().expect("go to line should have opened");
    assert_eq!(prompt.kind(), PromptKind::GoToLine);
}

#[test]
fn arrow_keys_move_the_palette_selection_rather_than_the_cursor() {
    let mut s = searchable("one\ntwo\nthree\n");
    press(&mut s, "ctrl+shift+p");
    let first = s.prompt.as_ref().unwrap().selected().unwrap().id.clone();
    press(&mut s, "down");
    let second = s.prompt.as_ref().unwrap().selected().unwrap().id.clone();
    assert_ne!(first, second);
    assert_eq!(
        s.caret(),
        Position::new(0, 0),
        "the document cursor must not have moved"
    );
    press(&mut s, "up");
    assert_eq!(s.prompt.as_ref().unwrap().selected().unwrap().id, first);
}

#[test]
fn accepting_when_nothing_matches_says_so_rather_than_looking_like_success() {
    let mut s = searchable("x\n");
    press(&mut s, "ctrl+shift+p");
    for c in "zzzz".chars() {
        press(&mut s, &c.to_string());
    }
    assert_eq!(
        press(&mut s, "enter"),
        Outcome::Message("no command matches `zzzz`".to_owned())
    );
    assert!(s.prompt.is_none());
}

#[test]
fn the_context_key_follows_the_prompt() {
    let mut s = searchable("x\n");
    assert_eq!(s.context.in_quick_open, false);
    press(&mut s, "ctrl+shift+p");
    assert_eq!(s.context.in_quick_open, true);
    press(&mut s, "escape");
    assert_eq!(s.context.in_quick_open, false);
    assert_eq!(s.context.editor_text_focus, true);
}

#[test]
fn opening_another_file_drops_the_matches_but_keeps_the_query() {
    let mut s = searchable("foo\n");
    press(&mut s, "ctrl+f");
    for key in ["f", "o", "o"] {
        press(&mut s, key);
    }
    assert!(!s.active.find.matches.is_empty());
    s.open(PathBuf::from("/w/b.txt"), "nothing here\n");
    assert!(s.active.find.matches.is_empty());
    assert_eq!(s.active.find.query, "foo");
}

// ---- More of what a session promises ---------------------------------------

#[test]
fn an_extension_is_answered_with_what_was_chosen() {
    for (steps, allow) in [(0, true), (1, false)] {
        let mut s = searchable("x\n");
        s.ask_extension_consent("read the workspace");
        let prompt = s.prompt.as_mut().expect("a question");
        assert_eq!(prompt.kind(), PromptKind::ExtensionConsent);
        assert_eq!(prompt.matches(), 2);
        for _ in 0..steps {
            prompt.next();
        }
        assert_eq!(press(&mut s, "enter"), Outcome::ExtensionConsent { allow });
    }
}

#[test]
fn an_extension_that_no_answer_was_chosen_for_is_not_answered() {
    let mut s = searchable("x\n");
    s.ask_extension_consent("read the workspace");
    type_into(&mut s, "zzz");
    assert_eq!(press(&mut s, "enter"), Outcome::Message("no answer chosen".to_owned()));
}

#[test]
fn a_decision_can_be_taken_back() {
    let mut s = searchable("x\n");
    assert_eq!(
        s.offer_extension_permissions(Vec::new()),
        Outcome::Message("no extension permission has been decided in this session".to_owned())
    );
    assert!(s.prompt.is_none());
    assert_eq!(
        s.offer_extension_permissions(vec![PaletteEntry::new("acme:network", "acme: network")]),
        Outcome::Handled
    );
    assert_eq!(
        press(&mut s, "enter"),
        Outcome::ForgetExtensionPermission("acme:network".to_owned())
    );
}

#[test]
fn a_code_action_is_handed_on_by_its_identifier() {
    let mut s = searchable("x\n");
    s.offer_code_actions(Vec::new());
    assert_eq!(s.status.as_deref(), Some("no code actions here"));
    s.offer_code_actions(vec![PaletteEntry::new("7", "Import `HashMap`")]);
    assert_eq!(press(&mut s, "enter"), Outcome::CodeAction("7".to_owned()));
}

#[test]
fn deleting_takes_a_typed_yes() {
    for (answer, deletes) in [("y", true), (" Y ", true), ("yes", false), ("", false), ("n", false)] {
        let mut s = with_tree();
        s.run("workbench.files.action.focusFilesExplorer", None, 0);
        s.run("deleteFile", None, 0);
        assert_eq!(s.prompt.as_ref().map(Asked::kind), Some(PromptKind::ConfirmDelete));
        type_into(&mut s, answer);
        let outcome = press(&mut s, "enter");
        if deletes {
            assert!(matches!(outcome, Outcome::FileOperation(Operation::Delete { .. })), "{answer}");
        } else {
            assert_eq!(outcome, Outcome::Message("nothing was deleted".to_owned()), "{answer}");
        }
    }
}

#[test]
fn the_tree_knows_what_was_listed_under_a_directory() {
    let mut s = with_tree();
    s.fill_directory("/w/src", vec![Entry::file("main.rs")]);
    assert_eq!(
        s.known_paths_under(&PathBuf::from("/w/src")),
        [PathBuf::from("/w/src"), PathBuf::from("/w/src/main.rs")]
    );
    assert!(s.known_paths_under(&PathBuf::from("/w/sr")).is_empty());
    assert!(session().known_paths_under(&PathBuf::from("/w")).is_empty());
}

#[test]
fn line_zero_is_outside_every_document() {
    let mut s = searchable("one\ntwo\n");
    press(&mut s, "ctrl+g");
    type_into(&mut s, "0");
    assert_eq!(
        press(&mut s, "enter"),
        Outcome::Message("line 0 is outside 1-3".to_owned())
    );
    press(&mut s, "ctrl+g");
    assert_eq!(press(&mut s, "enter"), Outcome::Handled, "nothing typed is no complaint");
}

#[test]
fn a_commit_message_is_trimmed() {
    let mut s = with_tree();
    s.fill_scm(Some(repository(vec![changed(ScmGroup::Staged, "work.rs")])));
    s.run("workbench.view.scm", None, 0);
    s.run("git.commit", None, 0);
    type_into(&mut s, "  a message  ");
    assert_eq!(
        press(&mut s, "enter"),
        Outcome::GitOperation(ScmOperation::Commit("a message".to_owned()))
    );
}

#[test]
fn a_renamed_file_is_unstaged_under_both_its_names() {
    let mut s = with_tree();
    s.fill_scm(Some(repository(vec![ScmRow {
        original: Some(PathBuf::from("old.rs")),
        renamed: true,
        ..changed(ScmGroup::Staged, "new.rs")
    }])));
    s.run("workbench.view.scm", None, 0);
    assert_eq!(
        s.run("git.unstage", None, 0),
        Outcome::GitOperation(ScmOperation::Unstage {
            path: PathBuf::from("new.rs"),
            original: Some(PathBuf::from("old.rs")),
        })
    );
}

#[test]
fn a_conflict_is_not_compared() {
    let mut s = with_tree();
    s.fill_scm(Some(repository(vec![changed(ScmGroup::Conflicts, "work.rs")])));
    s.run("workbench.view.scm", None, 0);
    assert!(matches!(s.run("list.select", None, 0), Outcome::Message(_)));
    assert_eq!(s.focus(), Focus::SideBar);
}

#[test]
fn the_branch_that_is_checked_out_is_not_offered() {
    let mut s = with_tree();
    s.fill_scm(Some(dirty_status()));
    s.offer_branches(vec![Branch { name: "main".to_owned(), current: true }]);
    assert!(s.prompt.is_none());
    assert!(s.status.is_some());
}

#[test]
fn overlapping_edits_are_refused_in_words() {
    assert_eq!(
        EditError::Overlapping.message(),
        "the server sent overlapping edits, which have no well-defined result"
    );
}

#[test]
fn walking_the_fields_back_and_forth_returns_to_the_same_one() {
    let mut s = session();
    s.insert_snippet(empty_at(Position::new(0, 0)), &snippet("${1:a} ${2:b} ${3:c}$0"));
    press(&mut s, "tab");
    let second = s.primary();
    press(&mut s, "tab");
    press(&mut s, "shift+tab");
    assert_eq!(s.primary(), second);
    for _ in 0..3 {
        press(&mut s, "shift+tab");
    }
    assert_eq!(s.primary().start, Position::new(0, 0), "there is none before the first");
}

#[test]
fn laying_out_twice_is_laying_out_once() {
    let mut s = searchable("x\n");
    press(&mut s, "ctrl+\\");
    press(&mut s, "ctrl+b");
    let widths = |s: &Editor| (s.active.view.width, s.groups.split_view.as_ref().unwrap().width);
    let once = widths(&s);
    s.lay_out();
    assert_eq!(widths(&s), once);
}

#[test]
fn cycling_there_and_back_changes_no_tab() {
    let mut s = three_tabs();
    let before = tabs(&s);
    press(&mut s, "ctrl+tab");
    press(&mut s, "ctrl+shift+tab");
    assert_eq!(tabs(&s), before);
    assert_eq!(s.text_at("/w/a.txt"), "xa\n");
}

#[test]
fn a_comparison_can_be_gone_between_but_not_split() {
    let mut s = session();
    s.open_comparison(ComparisonKind::Staged, Some("a\n"), Some("b\n"));
    assert_eq!(s.panes()[0].comparison.as_ref().unwrap().label, "HEAD");
    assert_eq!(
        s.run("workbench.action.splitEditor", None, 0),
        Outcome::Message("close the diff before splitting the editor".to_owned())
    );
    assert_eq!(press(&mut s, "ctrl+1"), Outcome::Handled);
    assert!(s.panes()[0].focused);
    assert!(!s.panes()[1].focused);
    assert_eq!(
        press(&mut s, "ctrl+3"),
        Outcome::Message("there are only 2 editor groups".to_owned())
    );
}

#[test]
fn a_frontends_command_that_nothing_else_answers_goes_to_the_frontend() {
    let mut s = searchable("x\n");
    s.frontend_commands.push(PaletteEntry::new("frontend.zoom", "Zoom"));
    assert_eq!(
        s.run("frontend.zoom", None, 0),
        Outcome::Frontend("frontend.zoom".to_owned())
    );
}

#[test]
fn upper_case_may_be_more_than_one_character() {
    let mut s = session();
    press(&mut s, "shift+ß");
    assert_eq!(s.text(), "SS");
}

#[test]
fn a_theme_that_is_known_is_put_on() {
    let setup = |known: bool| Setup {
        blank: from_file(None, "", &Config::of(plain())),
        keymap_problems: Vec::new(),
        theme: Some("Night Owl".to_owned()),
        theme_known: known,
        divisions: divisions(80, 24, false),
        git_enabled: false,
        gutter_marks: true,
        wording: Wording {
            no_selection: String::new(),
            exists_before: String::new(),
            exists_after: String::new(),
        },
    };
    let s: Session<Body, Span, Marks> = Session::new(setup(true));
    assert_eq!(s.theme, "Night Owl");
    assert!(!s.scm_wanted(), "no repository is read while the settings forbid it");
    let s: Session<Body, Span, Marks> = Session::new(setup(false));
    assert_eq!(s.problems, ["unknown theme `Night Owl`; using the default"]);
}

#[test]
fn workspace_settings_that_do_not_parse_are_reported() {
    let mut s = session();
    let settings = s.active.document.settings.clone();
    s.session.set_workspace_settings(Err("expected a value".to_owned()));
    assert_eq!(s.problems, ["workspace settings: expected a value"]);
    assert_eq!(s.active.document.settings, settings);
}

#[test]
fn edits_reach_an_open_file_that_is_not_on_screen() {
    let mut s = three_tabs();
    let changed = vec![edit(0, 0, 1, "B")];
    assert!(matches!(
        s.session.apply_edits_to_path(&PathBuf::from("/w/b.txt"), &changed, &engine()),
        Some(Ok(1))
    ));
    assert_eq!(s.text_at("/w/b.txt"), "B\n");
    assert_eq!(s.text(), "yc\n");
    assert!(s
        .session
        .apply_edits_to_path(&PathBuf::from("/w/d.txt"), &changed, &engine())
        .is_none());
    assert!(matches!(
        s.session.apply_edits_to_path(&PathBuf::from("/w/c.txt"), &changed, &engine()),
        Some(Ok(1))
    ));
    assert_eq!(s.text(), "Bc\n");
}

#[test]
fn regions_can_be_asked_for_of_another_window() {
    let mut s = session();
    s.resize(100, 30);
    press(&mut s, "ctrl+b");
    let regions = s.regions_for(divisions(60, 20, false));
    assert_eq!(regions.side_bar.map(|rect| rect.width), Some(30));
    assert_eq!(regions.editor.width, 30);
    assert_eq!(s.regions().editor.width, 70, "the window that there is stays as it was");
}

#[test]
fn tabs_under_a_directory_are_found_by_their_paths() {
    let mut s = three_tabs();
    s.open(PathBuf::from("/other/d.txt"), "d\n");
    assert_eq!(s.tabs_under(&PathBuf::from("/w")), [0, 1, 2]);
    assert_eq!(s.tabs_under(&PathBuf::from("/w/./b.txt")), [1]);
    assert!(s.tabs_under(&PathBuf::from("/w/b")).is_empty(), "whole names, not letters");
    assert!(s.path_of_tab(3) == Some(PathBuf::from("/other/d.txt")));
    assert!(s.path_of_tab(4).is_none());
}

#[test]
fn the_tree_is_asked_to_read_again_or_to_forget() {
    let mut s = session();
    s.invalidate_directory(&PathBuf::from("/w"));
    assert!(s.session.tree.explorer.is_none(), "there is no tree to ask");
    let mut s = with_tree();
    s.invalidate_directory(&PathBuf::from("/w/src"));
    s.invalidate_subtree(&PathBuf::from("/w"));
    s.forget_subtree(&PathBuf::from("/w/old"));
    assert!(matches!(
        s.session.tree.explorer.as_ref().unwrap().requests.as_slice(),
        [TreeRequest::Invalidate(_), TreeRequest::InvalidateUnder(_), TreeRequest::ForgetUnder(_)]
    ));
}

#[test]
fn what_is_known_of_a_repository_can_be_read_back() {
    let mut s = with_tree();
    assert!(s.repository_root().is_none());
    assert!(s.scm_status().is_none());
    assert!(s.gutter_marks_enabled());
    s.set_repository_root(Some(PathBuf::from("/w")));
    assert!(s.repository_root() == Some(&PathBuf::from("/w")));
    s.fill_scm(Some(dirty_status()));
    assert!(s.scm_status().is_some());
    s.comparison_failed("no such blob");
    assert_eq!(s.status.as_deref(), Some("could not open diff: no such blob"));
}

#[test]
fn a_key_that_stands_for_nothing_starts_the_conversation_again() {
    let refusal = "1 tab has unsaved changes: a.txt — ctrl+q again to quit anyway".to_owned();
    for between in ["ctrl+alt+shift+j", "f9", "ctrl+k"] {
        let mut s = session();
        s.open(PathBuf::from("/w/a.txt"), "x\n");
        press(&mut s, "y");
        assert_eq!(press(&mut s, "ctrl+q"), Outcome::Message(refusal.clone()));
        press(&mut s, between);
        if between == "ctrl+k" {
            press(&mut s, "j");
        }
        assert_eq!(press(&mut s, "ctrl+q"), Outcome::Message(refusal.clone()), "{between}");
        assert_eq!(press(&mut s, "ctrl+q"), Outcome::Quit);
    }
}

#[test]
fn a_key_that_begins_a_command_keeps_the_refusal() {
    let refusal = "1 tab has unsaved changes: a.txt — ctrl+q again to quit anyway".to_owned();
    let mut s = session();
    s.open(PathBuf::from("/w/a.txt"), "x\n");
    press(&mut s, "y");
    assert_eq!(press(&mut s, "ctrl+q"), Outcome::Message(refusal));
    let blank = s.blank();
    s.session.handle_chord(Resolution::Pending, parse_chord("ctrl+k"), false, false, blank);
    assert_eq!(press(&mut s, "ctrl+q"), Outcome::Quit);
}

#[test]
fn a_seed_keeps_the_directory_as_it_is_spelled() {
    let mut s = session();
    s.open(PathBuf::from("/w/./x/a.rs"), "x\n");
    s.run("workbench.action.files.openFile", None, 0);
    assert_eq!(s.prompt.as_ref().expect("a prompt should be open").text(), "/w/./x/");
}

#[test]
fn a_text_that_is_missing_is_compared_as_an_empty_one() {
    let mut s = session();
    s.open_comparison(ComparisonKind::Staged, None, Some("a\nb\n"));
    {
        let panes = s.panes();
        let numbers = |i: usize| -> Vec<Option<usize>> {
            panes[i].comparison.as_ref().unwrap().lines.iter().map(|line| line.number).collect()
        };
        assert_eq!(panes[0].document.body.text, "\n");
        assert_eq!(panes[1].document.body.text, "a\nb");
        assert_eq!(numbers(0), [None, None]);
        assert_eq!(numbers(1), [Some(1), Some(2)]);
        assert_eq!(panes[1].document.path, Some(PathBuf::from("work.rs")));
        assert_eq!(panes[1].document.settings.word_wrap, WordWrap::Off);
    }
    s.open_comparison(ComparisonKind::WorkingTree, Some("a\n"), None);
    let panes = s.panes();
    assert_eq!(panes[0].document.body.text, "a");
    assert_eq!(panes[1].document.body.text, "");
}

#[test]
fn each_document_follows_its_own_snippet() {
    let mut s = session();
    s.open(PathBuf::from("/w/a.rs"), "");
    s.insert_snippet(empty_at(Position::new(0, 0)), &snippet("${1:arg} end$0"));
    s.open(PathBuf::from("/w/b.rs"), "arg\n");
    let plan = s
        .plan_replacements(&["/w/a.rs", "/w/b.rs"], "arg", "name", |_: &PathBuf| {
            Err("unread".to_owned())
        })
        .unwrap();
    s.apply_workspace_edit(plan).unwrap();
    assert_eq!(s.text_at("/w/a.rs"), "name end");
    assert_eq!(s.text(), "name\n");
    assert!(s.active.document.snippet.is_none());
    s.open(PathBuf::from("/w/a.rs"), "");
    let followed = s.active.document.snippet.as_ref().expect("its field was edited");
    assert_eq!(followed.stops[0], Range::new(Position::new(0, 0), Position::new(0, 4)));
}

#[test]
fn a_name_that_is_typed_is_checked_before_anything_is_made() {
    let mut s = with_tree();
    s.run("explorer.newFile", None, 0);
    assert_eq!(s.prompt.as_ref().map(|p| p.kind()), Some(PromptKind::NewFile));
    for c in ["a", "/", "b"] {
        press(&mut s, c);
    }
    assert!(matches!(press(&mut s, "enter"), Outcome::Message(_)));
}

#[test]
fn a_plan_that_has_gone_stale_is_refused() {
    let mut s = session();
    s.open(PathBuf::from("/w/a.rs"), "old\n");
    let plan = s
        .plan_replacements(&["/w/a.rs"], "old", "new", |_: &PathBuf| Err("unread".to_owned()))
        .unwrap();
    s.run("workbench.action.closeActiveEditor", None, 0);
    match s.apply_workspace_edit(plan) {
        Err(WorkspaceError::Unreadable { path, reason }) => {
            assert!(path == PathBuf::from("/w/a.rs"));
            assert_eq!(reason, "its text was never supplied");
        }
        other => panic!("expected a refusal, got {other:?}"),
    }
    assert_eq!(s.tab_count(), 1);
    assert_eq!(s.text(), "");
    assert!(s.active.document.path.is_none());
}
