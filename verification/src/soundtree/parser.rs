//! Building the catalog from what was found on disk.
//!
//! The caller reads the directory tree and tries to decode every file; what
//! it found is a list of [`Scanned`] entries in the order of discovery. The
//! builder turns the list into a catalog: the name of each entry gives its
//! key and display name, every decoded file becomes a variation of the leaf
//! under its key, and every directory becomes a branch.

use super::{
    menu_get, menu_insert, menu_with_sound, MenuView, NodeView, SoundId, SoundMap, SoundNode,
    SoundTree,
};
use crate::keys::{resolve_key, str_to_code, Key};
use vstd::prelude::*;
use vstd::string::StringExecFns;

verus! {

/// The name of an entry without its extension, as a mathematical value.
pub enum StemView {
    Missing,
    Invalid,
    Name(Seq<char>),
}

/// The name of an entry without its extension, as far as it could be had.
#[derive(Debug, PartialEq, Eq)]
pub enum Stem {
    /// The path has no file name.
    Missing,
    /// The file name is not Unicode text.
    Invalid,
    /// The file name up to its extension.
    Name(String),
}

impl View for Stem {
    type V = StemView;

    open spec fn view(&self) -> StemView {
        match self {
            Stem::Missing => StemView::Missing,
            Stem::Invalid => StemView::Invalid,
            Stem::Name(name) => StemView::Name(name@),
        }
    }
}

/// What was found at one entry of a directory, as a mathematical value.
pub enum ScannedView {
    File { path: Seq<char>, stem: StemView, sound: Result<SoundId, Seq<char>> },
    Dir { path: Seq<char>, stem: StemView, entries: Seq<ScannedView> },
    Other,
    Unreadable(Seq<char>),
}

/// What was found at one entry of a directory.
#[derive(Debug, PartialEq, Eq)]
pub enum Scanned {
    /// A file, and the sound decoded from it or the reason why none was.
    File { path: String, stem: Stem, sound: Result<SoundId, String> },
    /// A directory, and what was found in it, in the order of discovery.
    Dir { path: String, stem: Stem, entries: Vec<Scanned> },
    /// Neither a file nor a directory.
    Other,
    /// The entry, its type, or the directory it stands for could not be
    /// read; the text says why. Nothing after it in its list counts.
    Unreadable(String),
}

/// The view of the outcome of decoding one file.
pub open spec fn sound_view(sound: Result<SoundId, String>) -> Result<SoundId, Seq<char>> {
    match sound {
        Ok(id) => Ok(id),
        Err(reason) => Err(reason@),
    }
}

impl Scanned {
    pub open spec fn view(&self) -> ScannedView
        decreases self,
    {
        match self {
            Scanned::File { path, stem, sound } => ScannedView::File {
                path: path@,
                stem: stem@,
                sound: sound_view(*sound),
            },
            Scanned::Dir { path, stem, entries } => ScannedView::Dir {
                path: path@,
                stem: stem@,
                entries: Seq::new(
                    entries@.len(),
                    |i: int|
                        if 0 <= i < entries@.len() {
                            entries@[i].view()
                        } else {
                            ScannedView::Other
                        },
                ),
            },
            Scanned::Other => ScannedView::Other,
            Scanned::Unreadable(reason) => ScannedView::Unreadable(reason@),
        }
    }
}

/// The views of a list of entries.
pub open spec fn scan_view(entries: Seq<Scanned>) -> Seq<ScannedView> {
    Seq::new(entries.len(), |i: int| entries[i].view())
}

/// A file that is no sound, as a mathematical value.
pub struct BadSoundView {
    pub path: Seq<char>,
    pub error: Seq<char>,
}

/// A file that could not be decoded. It is reported; the catalog is built
/// without it.
#[derive(Debug, PartialEq, Eq)]
pub struct BadSoundError {
    pub path: String,
    pub error: String,
}

impl View for BadSoundError {
    type V = BadSoundView;

    open spec fn view(&self) -> BadSoundView {
        BadSoundView { path: self.path@, error: self.error@ }
    }
}

/// The views of a list of undecoded files.
pub open spec fn bad_sounds_view(bad_sounds: Seq<BadSoundError>) -> Seq<BadSoundView> {
    Seq::new(bad_sounds.len(), |i: int| bad_sounds[i]@)
}

/// Why no catalog could be built, as a mathematical value.
pub enum ParseErrorView {
    Unreadable(Seq<char>),
    MissingName(Seq<char>),
    InvalidName(Seq<char>),
    UnknownKey(Seq<char>),
}

/// Why no catalog could be built.
#[derive(Debug, PartialEq, Eq)]
pub enum ParseError {
    /// A directory, an entry or its type could not be read; the text says why.
    Unreadable(String),
    /// The entry at this path has no file name.
    MissingName(String),
    /// The name of the entry at this path is not Unicode text.
    InvalidName(String),
    /// This key token, taken from the name of an entry, names no key.
    UnknownKey(String),
}

impl View for ParseError {
    type V = ParseErrorView;

    open spec fn view(&self) -> ParseErrorView {
        match self {
            ParseError::Unreadable(reason) => ParseErrorView::Unreadable(reason@),
            ParseError::MissingName(path) => ParseErrorView::MissingName(path@),
            ParseError::InvalidName(path) => ParseErrorView::InvalidName(path@),
            ParseError::UnknownKey(token) => ParseErrorView::UnknownKey(token@),
        }
    }
}

/// What the error tells the operator.
pub open spec fn error_text(error: ParseErrorView) -> Seq<char> {
    match error {
        ParseErrorView::Unreadable(reason) => reason,
        ParseErrorView::MissingName(_) => "Could not get file name"@,
        ParseErrorView::InvalidName(_) => "Invalid file name"@,
        ParseErrorView::UnknownKey(token) => "Could not convert '"@ + token + "' to key code"@,
    }
}

impl ParseError {
    /// What to tell the operator.
    pub fn message(&self) -> (text: String)
        ensures
            text@ == error_text(self@),
    {
        match self {
            ParseError::Unreadable(reason) => reason.clone(),
            ParseError::MissingName(_) => "Could not get file name".to_owned(),
            ParseError::InvalidName(_) => "Invalid file name".to_owned(),
            ParseError::UnknownKey(token) => {
                let mut text = "Could not convert '".to_owned();
                text.append(token.as_str());
                text.append("' to key code");
                text
            },
        }
    }
}

/// The separator stands at index `i` of the name, and nowhere before it.
pub open spec fn is_first_separator(stem: Seq<char>, separator: char, i: int) -> bool {
    &&& 0 <= i < stem.len()
    &&& stem[i] == separator
    &&& forall|j: int| 0 <= j < i ==> stem[j] != separator
}

/// The index of the first separator of the name, if it has one.
pub open spec fn split_index(stem: Seq<char>, separator: char) -> Option<int> {
    if exists|i: int| is_first_separator(stem, separator, i) {
        Some(choose|i: int| is_first_separator(stem, separator, i))
    } else {
        None
    }
}

/// The key token of a name: what stands before the first separator, or all
/// of it.
pub open spec fn token_of(stem: Seq<char>, separator: char) -> Seq<char> {
    match split_index(stem, separator) {
        Some(i) => stem.take(i),
        None => stem,
    }
}

/// The display name of a name: what stands after the first separator, or nothing.
pub open spec fn display_name_of(stem: Seq<char>, separator: char) -> Seq<char> {
    match split_index(stem, separator) {
        Some(i) => stem.skip(i + 1),
        None => Seq::empty(),
    }
}

/// The index of the first separator in `stem`.
pub fn find_separator(stem: &str, separator: char) -> (index: Option<usize>)
    ensures
        match index {
            Some(i) => split_index(stem@, separator) == Some(i as int),
            None => split_index(stem@, separator) is None,
        },
{
    let len = stem.unicode_len();
    let mut i: usize = 0;
    while i < len
        invariant
            i <= len,
            len == stem@.len(),
            forall|j: int| 0 <= j < i ==> stem@[j] != separator,
        decreases len - i,
    {
        if stem.get_char(i) == separator {
            proof {
                assert(is_first_separator(stem@, separator, i as int));
                let k = choose|k: int| is_first_separator(stem@, separator, k);
                if k < i {
                    assert(stem@[k] != separator);
                }
                if i < k {
                    assert(stem@[i as int] != separator);
                }
            }
            return Some(i);
        }
        i += 1;
    }
    None
}

/// Splits a name at its first separator into key token and display name.
pub fn split_name(stem: &str, separator: char) -> (parts: (String, String))
    ensures
        parts.0@ == token_of(stem@, separator),
        parts.1@ == display_name_of(stem@, separator),
{
    let len = stem.unicode_len();
    match find_separator(stem, separator) {
        Some(i) => {
            let token = stem.substring_char(0, i).to_owned();
            let name = stem.substring_char(i + 1, len).to_owned();
            assert(stem@.subrange(0, i as int) =~= stem@.take(i as int));
            assert(stem@.subrange(i + 1, len as int) =~= stem@.skip(i + 1));
            (token, name)
        },
        None => (stem.to_owned(), String::new()),
    }
}

/// The key and display name that the name of an entry gives.
pub open spec fn entry_key(stem: StemView, path: Seq<char>, separator: char) -> Result<
    (Seq<char>, Seq<char>),
    ParseErrorView,
> {
    match stem {
        StemView::Missing => Err(ParseErrorView::MissingName(path)),
        StemView::Invalid => Err(ParseErrorView::InvalidName(path)),
        StemView::Name(name) => match resolve_key(token_of(name, separator)) {
            Some(key) => Ok((key, display_name_of(name, separator))),
            None => Err(ParseErrorView::UnknownKey(token_of(name, separator))),
        },
    }
}

/// Reads key and display name off the name of the entry at `path`.
pub fn file_path_to_code_and_name(stem: &Stem, path: &str, separator: char) -> (res: Result<
    (Key, String),
    ParseError,
>)
    ensures
        match res {
            Ok((key, name)) => entry_key(stem@, path@, separator) == Ok::<
                (Seq<char>, Seq<char>),
                ParseErrorView,
            >((key@, name@)),
            Err(e) => entry_key(stem@, path@, separator) == Err::<
                (Seq<char>, Seq<char>),
                ParseErrorView,
            >(e@),
        },
{
    match stem {
        Stem::Missing => Err(ParseError::MissingName(path.to_owned())),
        Stem::Invalid => Err(ParseError::InvalidName(path.to_owned())),
        Stem::Name(file_name) => {
            let (token, name) = split_name(file_name.as_str(), separator);
            match str_to_code(token.as_str()) {
                Some(key) => Ok((key, name)),
                None => Err(ParseError::UnknownKey(token)),
            }
        },
    }
}

/// A catalog under construction, as a mathematical value: the top menu so
/// far, and the files that were no sounds, in the order they were met.
pub struct Parsed {
    pub menu: MenuView,
    pub bad_sounds: Seq<BadSoundView>,
}

/// What the first `n` entries of a directory come to.
pub open spec fn parse_entries(entries: Seq<ScannedView>, n: int, separator: char) -> Result<
    Parsed,
    ParseErrorView,
>
    decreases entries, n,
{
    if n <= 0 || n > entries.len() {
        Ok(Parsed { menu: Seq::empty(), bad_sounds: Seq::empty() })
    } else {
        match parse_entries(entries, n - 1, separator) {
            Ok(so_far) => parse_entry(so_far, entries[n - 1], separator),
            Err(e) => Err(e),
        }
    }
}

/// What one more entry makes of a catalog under construction. A decoded
/// file adds a variation under its key; a file that is no sound is noted; a
/// directory puts a branch under its key, whatever was there. An entry whose
/// name gives no key, and one that could not be read, end the construction.
pub open spec fn parse_entry(so_far: Parsed, entry: ScannedView, separator: char) -> Result<
    Parsed,
    ParseErrorView,
>
    decreases entry, 0int,
{
    match entry {
        ScannedView::File { path, stem, sound } => match entry_key(stem, path, separator) {
            Ok((key, name)) => match sound {
                Ok(id) => Ok(
                    Parsed { menu: menu_with_sound(so_far.menu, key, name, id), ..so_far },
                ),
                Err(error) => Ok(
                    Parsed {
                        bad_sounds: so_far.bad_sounds.push(BadSoundView { path, error }),
                        ..so_far
                    },
                ),
            },
            Err(e) => Err(e),
        },
        ScannedView::Dir { path, stem, entries } => match entry_key(stem, path, separator) {
            Ok((key, name)) => match parse_entries(entries, entries.len() as int, separator) {
                Ok(below) => Ok(
                    Parsed {
                        menu: menu_insert(so_far.menu, key, NodeView::Branch(name, below.menu)),
                        bad_sounds: so_far.bad_sounds + below.bad_sounds,
                    },
                ),
                Err(e) => Err(e),
            },
            Err(e) => Err(e),
        },
        ScannedView::Other => Ok(so_far),
        ScannedView::Unreadable(reason) => Err(ParseErrorView::Unreadable(reason)),
    }
}

/// What a whole scan comes to.
pub open spec fn parse_scan(entries: Seq<ScannedView>, separator: char) -> Result<
    Parsed,
    ParseErrorView,
> {
    parse_entries(entries, entries.len() as int, separator)
}

/// Appends `bad` to the list.
fn note_bad_sound(bad_sounds: &mut Vec<BadSoundError>, bad: BadSoundError)
    ensures
        bad_sounds_view(final(bad_sounds)@) == bad_sounds_view(old(bad_sounds)@).push(bad@),
{
    bad_sounds.push(bad);
    assert(bad_sounds_view(bad_sounds@) =~= bad_sounds_view(old(bad_sounds)@).push(bad@));
}

/// Builds the menu of one directory from what was found in it, and the
/// menus below it. The files that were no sounds are added to `bad_sounds`.
fn parse_recursive(
    entries: &Vec<Scanned>,
    separator: char,
    bad_sounds: &mut Vec<BadSoundError>,
) -> (res: Result<SoundMap, ParseError>)
    ensures
        match res {
            Ok(map) => {
                &&& parse_scan(scan_view(entries@), separator) matches Ok(parsed)
                &&& map.view() == parsed.menu
                &&& bad_sounds_view(final(bad_sounds)@) == bad_sounds_view(old(bad_sounds)@)
                    + parsed.bad_sounds
                &&& map.wf()
            },
            Err(e) => parse_scan(scan_view(entries@), separator) == Err::<Parsed, ParseErrorView>(
                e@,
            ),
        },
    decreases entries,
{
    let ghost views = scan_view(entries@);
    let ghost noted = bad_sounds_view(bad_sounds@);
    let mut map = SoundMap::new();
    let mut i: usize = 0;
    assert(noted + Seq::<BadSoundView>::empty() =~= noted);
    while i < entries.len()
        invariant
            i <= entries@.len(),
            views == scan_view(entries@),
            parse_entries(views, i as int, separator) matches Ok(parsed) && map.view()
                == parsed.menu && bad_sounds_view(bad_sounds@) == noted + parsed.bad_sounds,
            map.wf(),
        decreases entries@.len() - i,
    {
        let ghost so_far = parse_entries(views, i as int, separator)->Ok_0;
        assert(views[i as int] == entries@[i as int].view());
        assert(parse_entries(views, i + 1, separator) == parse_entry(
            so_far,
            views[i as int],
            separator,
        ));
        match &entries[i] {
            Scanned::File { path, stem, sound } => {
                let (key, name) = match file_path_to_code_and_name(stem, path.as_str(), separator) {
                    Ok(parts) => parts,
                    Err(e) => {
                        proof {
                            lemma_error_stays(views, i + 1, separator);
                        }
                        return Err(e);
                    },
                };
                match sound {
                    Ok(id) => {
                        map.insert_sound(key, name, *id);
                    },
                    Err(error) => {
                        note_bad_sound(
                            bad_sounds,
                            BadSoundError { path: path.clone(), error: error.clone() },
                        );
                        assert(bad_sounds_view(bad_sounds@) =~= noted + so_far.bad_sounds.push(
                            BadSoundView { path: path@, error: error@ },
                        ));
                    },
                }
            },
            Scanned::Dir { path, stem, entries: below } => {
                let (key, name) = match file_path_to_code_and_name(stem, path.as_str(), separator) {
                    Ok(parts) => parts,
                    Err(e) => {
                        proof {
                            lemma_error_stays(views, i + 1, separator);
                        }
                        return Err(e);
                    },
                };
                assert(views[i as int]->Dir_entries =~= scan_view(below@));
                let sub_map = match parse_recursive(below, separator, bad_sounds) {
                    Ok(sub_map) => sub_map,
                    Err(e) => {
                        proof {
                            lemma_error_stays(views, i + 1, separator);
                        }
                        return Err(e);
                    },
                };
                let ghost sub = parse_scan(scan_view(below@), separator)->Ok_0;
                assert(bad_sounds_view(bad_sounds@) =~= noted + (so_far.bad_sounds
                    + sub.bad_sounds));
                map.insert(key, SoundNode::branch(name, sub_map));
            },
            Scanned::Other => {},
            Scanned::Unreadable(reason) => {
                proof {
                    lemma_error_stays(views, i + 1, separator);
                }
                return Err(ParseError::Unreadable(reason.clone()));
            },
        }
        i += 1;
    }
    Ok(map)
}

/// Once an entry has ended the construction, the entries after it change nothing.
pub proof fn lemma_error_stays(entries: Seq<ScannedView>, n: int, separator: char)
    requires
        0 <= n <= entries.len(),
        parse_entries(entries, n, separator) is Err,
    ensures
        parse_scan(entries, separator) == parse_entries(entries, n, separator),
    decreases entries.len() - n,
{
    if n < entries.len() {
        assert(parse_entries(entries, n + 1, separator) == parse_entries(entries, n, separator));
        lemma_error_stays(entries, n + 1, separator);
    }
}

/// Builds the catalog from a scan of the soundboard's directory: every
/// decoded file is a variation of the leaf under its key, in the order of
/// discovery, and every directory is a branch. Returns the catalog with the
/// files that were no sounds, or the first reason why no catalog can be built.
pub fn parse(entries: &Vec<Scanned>, separator: char) -> (res: Result<
    (SoundTree, Vec<BadSoundError>),
    ParseError,
>)
    ensures
        match res {
            Ok((tree, bad_sounds)) => {
                &&& parse_scan(scan_view(entries@), separator) matches Ok(parsed)
                &&& tree.view() == parsed.menu
                &&& bad_sounds_view(bad_sounds@) == parsed.bad_sounds
                &&& tree.wf()
            },
            Err(e) => parse_scan(scan_view(entries@), separator) == Err::<Parsed, ParseErrorView>(
                e@,
            ),
        },
{
    let mut bad_sounds: Vec<BadSoundError> = Vec::new();
    assert(bad_sounds_view(bad_sounds@) =~= Seq::empty());
    match parse_recursive(entries, separator, &mut bad_sounds) {
        Ok(root) => {
            let ghost parsed = parse_scan(scan_view(entries@), separator)->Ok_0;
            assert(Seq::<BadSoundView>::empty() + parsed.bad_sounds =~= parsed.bad_sounds);
            Ok((SoundTree::new(root), bad_sounds))
        },
        Err(e) => Err(e),
    }
}

/// The variation that an entry adds under `key`: the entry is a decoded
/// file whose name gives that key.
pub open spec fn variation_of(entry: ScannedView, key: Seq<char>, separator: char) -> Option<
    (Seq<char>, SoundId),
> {
    match entry {
        ScannedView::File { path, stem, sound: Ok(id) } => match entry_key(stem, path, separator) {
            Ok((k, name)) => if k == key {
                Some((name, id))
            } else {
                None
            },
            Err(_) => None,
        },
        _ => None,
    }
}

/// The entry is a directory whose name gives `key`.
pub open spec fn is_menu_of(entry: ScannedView, key: Seq<char>, separator: char) -> bool {
    match entry {
        ScannedView::Dir { path, stem, .. } => match entry_key(stem, path, separator) {
            Ok((k, _)) => k == key,
            Err(_) => false,
        },
        _ => false,
    }
}

/// The variations that the first `n` entries add under `key`, in the order
/// of the entries.
pub open spec fn variations_of(
    entries: Seq<ScannedView>,
    n: int,
    key: Seq<char>,
    separator: char,
) -> Seq<(Seq<char>, SoundId)>
    decreases n,
{
    if n <= 0 || n > entries.len() {
        Seq::empty()
    } else {
        match variation_of(entries[n - 1], key, separator) {
            Some(variation) => variations_of(entries, n - 1, key, separator).push(variation),
            None => variations_of(entries, n - 1, key, separator),
        }
    }
}

/// The index of the last directory among the first `n` entries whose name
/// gives `key`.
pub open spec fn last_menu_of(
    entries: Seq<ScannedView>,
    n: int,
    key: Seq<char>,
    separator: char,
) -> Option<int>
    decreases n,
{
    if n <= 0 || n > entries.len() {
        None
    } else if is_menu_of(entries[n - 1], key, separator) {
        Some(n - 1)
    } else {
        last_menu_of(entries, n - 1, key, separator)
    }
}

/// The branch that a directory becomes.
pub open spec fn branch_of(entry: ScannedView, separator: char) -> NodeView {
    NodeView::Branch(
        entry_key(entry->Dir_stem, entry->Dir_path, separator)->Ok_0.1,
        parse_scan(entry->Dir_entries, separator)->Ok_0.menu,
    )
}

/// What a catalog built from the first `n` entries has under `key`: the
/// branch of the last directory with that key, if there is one; else the
/// leaf of all decoded files with that key, in the order of discovery, if
/// there is any; else nothing.
pub open spec fn node_of(
    entries: Seq<ScannedView>,
    n: int,
    key: Seq<char>,
    separator: char,
) -> Option<NodeView> {
    match last_menu_of(entries, n, key, separator) {
        Some(i) => Some(branch_of(entries[i], separator)),
        None => if variations_of(entries, n, key, separator).len() > 0 {
            Some(NodeView::Leaf(variations_of(entries, n, key, separator)))
        } else {
            None
        },
    }
}

/// The catalog holds under each key what the entries with that key make
/// of it: the variations of a leaf stand in the order of discovery, and a
/// directory takes the key from the files.
pub proof fn lemma_catalog_shape(
    entries: Seq<ScannedView>,
    n: int,
    key: Seq<char>,
    separator: char,
)
    requires
        0 <= n <= entries.len(),
        parse_entries(entries, n, separator) is Ok,
    ensures
        menu_get(parse_entries(entries, n, separator)->Ok_0.menu, key) == node_of(
            entries,
            n,
            key,
            separator,
        ),
    decreases n,
{
    if n == 0 {
        super::lemma_find_none(Seq::empty(), key);
    } else {
        let entry = entries[n - 1];
        let so_far = parse_entries(entries, n - 1, separator)->Ok_0;
        let now = parse_entries(entries, n, separator)->Ok_0;
        assert(parse_entries(entries, n, separator) == parse_entry(so_far, entry, separator));
        lemma_catalog_shape(entries, n - 1, key, separator);
        let menus = last_menu_of(entries, n - 1, key, separator);
        let before = variations_of(entries, n - 1, key, separator);
        match entry {
            ScannedView::File { path, stem, sound } => {
                let (k, name) = entry_key(stem, path, separator)->Ok_0;
                assert(!is_menu_of(entry, key, separator));
                match sound {
                    Ok(id) => {
                        assert(now.menu == menu_with_sound(so_far.menu, k, name, id));
                        super::lemma_get_with_sound(so_far.menu, k, name, id, key);
                        if k == key {
                            assert(variation_of(entry, key, separator) == Some((name, id)));
                            assert(variations_of(entries, n, key, separator) == before.push(
                                (name, id),
                            ));
                            if menus is None && before.len() == 0 {
                                assert(before.push((name, id)) =~= seq![(name, id)]);
                            }
                        } else {
                            assert(variation_of(entry, key, separator) is None);
                        }
                    },
                    Err(_) => {
                        assert(now.menu == so_far.menu);
                        assert(variation_of(entry, key, separator) is None);
                    },
                }
            },
            ScannedView::Dir { path, stem, entries: below } => {
                let (k, name) = entry_key(stem, path, separator)->Ok_0;
                let node = NodeView::Branch(name, parse_scan(below, separator)->Ok_0.menu);
                assert(now.menu == menu_insert(so_far.menu, k, node));
                super::lemma_get_insert(so_far.menu, k, node, key);
                assert(variation_of(entry, key, separator) is None);
                if k == key {
                    assert(is_menu_of(entry, key, separator));
                    assert(node == branch_of(entry, separator));
                } else {
                    assert(!is_menu_of(entry, key, separator));
                }
            },
            ScannedView::Other => {
                assert(now.menu == so_far.menu);
                assert(!is_menu_of(entry, key, separator));
                assert(variation_of(entry, key, separator) is None);
            },
            ScannedView::Unreadable(_) => {},
        }
    }
}

/// Two scans that hold the same names, sounds and reasons give the same
/// catalog, or fail for the same reason.
pub proof fn lemma_same_scan_same_catalog(
    first: Seq<Scanned>,
    second: Seq<Scanned>,
    separator: char,
)
    requires
        scan_view(first) == scan_view(second),
    ensures
        parse_scan(scan_view(first), separator) == parse_scan(scan_view(second), separator),
{
}

} // verus!
