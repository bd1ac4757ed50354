use vstd::prelude::*;
use vstd::string::*;

use crate::args::{FlagArgBase, KVArgBase, PosArgBase};
use crate::value::{accepts, kind_ok, token_converts, ValueKind};

verus! {

/// Why a registration or a match failed. The index of a match error is the offending
/// token's position in the list handed to `Parser::parse_vec`.
#[derive(Clone, Copy, Debug, PartialEq, Eq, Structural)]
pub enum ArgError {
    /// A positional argument of the same name is already registered.
    DuplicatePositional,
    /// A key-value or flag name is not longer than one character.
    NameTooShort,
    /// The long name is already a key (a long name or an alias).
    NameTaken,
    /// The alias is already a key (a long name or an alias).
    AliasTaken,
    /// The token at `index` names a key whose argument already holds a value.
    DuplicateKey { index: usize },
    /// The key-value key at `index` is the last token.
    MissingValue { index: usize },
    /// The token at `index` names no registered key.
    UnknownKey { index: usize },
    /// The bare token at `index` finds no positional slot left.
    TooManyPositional { index: usize },
}

/// A registered positional argument, as the contracts see it.
pub struct PosModel {
    pub name: Seq<char>,
    pub desc: Seq<char>,
    pub kind: ValueKind,
    pub val: Option<Seq<char>>,
}

/// A registered key-value argument, as the contracts see it.
pub struct KvModel {
    pub name: Seq<char>,
    pub desc: Seq<char>,
    pub short_key: Option<char>,
    pub kind: ValueKind,
    pub val: Option<Seq<char>>,
}

/// A registered flag, as the contracts see it.
pub struct FlagModel {
    pub name: Seq<char>,
    pub desc: Seq<char>,
    pub short_key: Option<char>,
    pub found: bool,
}

/// The registry: positional slots in registration order, key-value arguments and flags.
pub struct ParserModel {
    pub pos: Seq<PosModel>,
    pub kv: Seq<KvModel>,
    pub flags: Seq<FlagModel>,
}

/// The view of an optional value.
pub open spec fn view_opt<T: View>(o: Option<T>) -> Option<T::V> {
    match o {
        Some(v) => Some(v@),
        None => None,
    }
}

/// Whether `key` is the long name or the alias of an argument.
pub open spec fn has_key(name: Seq<char>, short_key: Option<char>, key: Seq<char>) -> bool {
    key == name || (short_key.is_some() && key == seq![short_key.unwrap()])
}

/// Whether two arguments share a key.
pub open spec fn keys_clash(
    name1: Seq<char>,
    short1: Option<char>,
    name2: Seq<char>,
    short2: Option<char>,
) -> bool {
    has_key(name2, short2, name1) || (short1.is_some() && has_key(name2, short2, seq![short1.unwrap()]))
}

/// The views of a list of tokens.
pub open spec fn token_views(v: Seq<String>) -> Seq<Seq<char>> {
    v.map_values(|s: String| s@)
}

/// A token that starts with a marker names a key.
pub open spec fn is_key_token(t: Seq<char>) -> bool {
    t.len() > 0 && t[0] == '-'
}

/// The key named by a key token: what follows its one or two markers.
pub open spec fn key_of(t: Seq<char>) -> Seq<char> {
    if t.len() >= 2 && t[1] == '-' {
        t.skip(2)
    } else {
        t.skip(1)
    }
}

/// What an argument holds after it parses `tok`: the token if it converts, else nothing.
pub open spec fn parsed(kind: ValueKind, tok: Seq<char>) -> Option<Seq<char>> {
    if accepts(kind, tok) {
        Some(tok)
    } else {
        None
    }
}

impl ParserModel {
    pub open spec fn empty() -> ParserModel {
        ParserModel { pos: Seq::empty(), kv: Seq::empty(), flags: Seq::empty() }
    }

    /// The registry's invariants: positional names are distinct; long names are longer than one
    /// character; no two keyed arguments, of either kind, share a long name or an alias; every
    /// held token converts under its argument's kind.
    pub open spec fn wf(self) -> bool {
        &&& forall|i: int, j: int|
            0 <= i < j < self.pos.len() ==> #[trigger] self.pos[i].name != #[trigger] self.pos[j].name
        &&& forall|i: int|
            0 <= i < self.pos.len() ==> kind_ok(#[trigger] self.pos[i].kind) && (self.pos[i].val matches Some(t) ==> accepts(self.pos[i].kind, t))
        &&& forall|i: int|
            0 <= i < self.kv.len() ==> (#[trigger] self.kv[i]).name.len() > 1 && kind_ok(self.kv[i].kind) && (self.kv[i].val matches Some(t) ==> accepts(self.kv[i].kind, t))
        &&& forall|i: int| 0 <= i < self.flags.len() ==> (#[trigger] self.flags[i]).name.len() > 1
        &&& forall|i: int, j: int|
            0 <= i < self.kv.len() && 0 <= j < self.kv.len() && i != j ==> !keys_clash(
                #[trigger] self.kv[i].name,
                self.kv[i].short_key,
                #[trigger] self.kv[j].name,
                self.kv[j].short_key,
            )
        &&& forall|i: int, j: int|
            0 <= i < self.flags.len() && 0 <= j < self.flags.len() && i != j ==> !keys_clash(
                #[trigger] self.flags[i].name,
                self.flags[i].short_key,
                #[trigger] self.flags[j].name,
                self.flags[j].short_key,
            )
        &&& forall|i: int, j: int|
            0 <= i < self.kv.len() && 0 <= j < self.flags.len() ==> !keys_clash(
                #[trigger] self.kv[i].name,
                self.kv[i].short_key,
                #[trigger] self.flags[j].name,
                self.flags[j].short_key,
            )
    }

    /// Whether `key` is a long name or an alias of a key-value argument or a flag.
    pub open spec fn key_taken(self, key: Seq<char>) -> bool {
        (exists|i: int| 0 <= i < self.kv.len() && has_key(self.kv[i].name, self.kv[i].short_key, key))
            || (exists|i: int|
            0 <= i < self.flags.len() && has_key(self.flags[i].name, self.flags[i].short_key, key))
    }

    /// The positional slot named `name`.
    pub open spec fn find_pos(self, name: Seq<char>) -> Option<int> {
        if exists|i: int| 0 <= i < self.pos.len() && self.pos[i].name == name {
            Some(choose|i: int| 0 <= i < self.pos.len() && self.pos[i].name == name)
        } else {
            None
        }
    }

    /// The key-value argument whose long name is `name`.
    pub open spec fn find_kv_named(self, name: Seq<char>) -> Option<int> {
        if exists|i: int| 0 <= i < self.kv.len() && self.kv[i].name == name {
            Some(choose|i: int| 0 <= i < self.kv.len() && self.kv[i].name == name)
        } else {
            None
        }
    }

    /// The flag whose long name is `name`.
    pub open spec fn find_flag_named(self, name: Seq<char>) -> Option<int> {
        if exists|i: int| 0 <= i < self.flags.len() && self.flags[i].name == name {
            Some(choose|i: int| 0 <= i < self.flags.len() && self.flags[i].name == name)
        } else {
            None
        }
    }

    /// The key-value argument that `key` (long name or alias) resolves to.
    pub open spec fn find_kv(self, key: Seq<char>) -> Option<int> {
        if exists|i: int| 0 <= i < self.kv.len() && has_key(self.kv[i].name, self.kv[i].short_key, key) {
            Some(
                choose|i: int|
                    0 <= i < self.kv.len() && has_key(self.kv[i].name, self.kv[i].short_key, key),
            )
        } else {
            None
        }
    }

    /// The flag that `key` (long name or alias) resolves to.
    pub open spec fn find_flag(self, key: Seq<char>) -> Option<int> {
        if exists|i: int|
            0 <= i < self.flags.len() && has_key(self.flags[i].name, self.flags[i].short_key, key) {
            Some(
                choose|i: int|
                    0 <= i < self.flags.len() && has_key(
                        self.flags[i].name,
                        self.flags[i].short_key,
                        key,
                    ),
            )
        } else {
            None
        }
    }

    pub open spec fn pos_token(self, name: Seq<char>) -> Option<Seq<char>> {
        match self.find_pos(name) {
            Some(i) => self.pos[i].val,
            None => None,
        }
    }

    pub open spec fn pos_found(self, name: Seq<char>) -> bool {
        self.pos_token(name).is_some()
    }

    pub open spec fn kv_token(self, name: Seq<char>) -> Option<Seq<char>> {
        match self.find_kv_named(name) {
            Some(i) => self.kv[i].val,
            None => None,
        }
    }

    pub open spec fn kv_found(self, name: Seq<char>) -> bool {
        self.kv_token(name).is_some()
    }

    pub open spec fn flag_found(self, name: Seq<char>) -> bool {
        match self.find_flag_named(name) {
            Some(i) => self.flags[i].found,
            None => false,
        }
    }

    /// The registry after the value of the positional slot `name` is handed out.
    pub open spec fn take_pos(self, name: Seq<char>) -> ParserModel {
        match self.find_pos(name) {
            Some(i) => ParserModel { pos: self.pos.update(i, PosModel { val: None, ..self.pos[i] }), ..self },
            None => self,
        }
    }

    /// The registry after the value of the key-value argument `name` is handed out.
    pub open spec fn take_kv(self, name: Seq<char>) -> ParserModel {
        match self.find_kv_named(name) {
            Some(i) => ParserModel { kv: self.kv.update(i, KvModel { val: None, ..self.kv[i] }), ..self },
            None => self,
        }
    }

    /// The registry after a positional argument is appended.
    pub open spec fn with_pos(self, name: Seq<char>, desc: Seq<char>, kind: ValueKind) -> ParserModel {
        ParserModel { pos: self.pos.push(PosModel { name, desc, kind, val: None }), ..self }
    }

    /// The registry after a key-value argument is added.
    pub open spec fn with_kv(
        self,
        name: Seq<char>,
        desc: Seq<char>,
        short_key: Option<char>,
        kind: ValueKind,
    ) -> ParserModel {
        ParserModel { kv: self.kv.push(KvModel { name, desc, short_key, kind, val: None }), ..self }
    }

    /// The registry after a flag is added.
    pub open spec fn with_flag(self, name: Seq<char>, desc: Seq<char>, short_key: Option<char>) -> ParserModel {
        ParserModel { flags: self.flags.push(FlagModel { name, desc, short_key, found: false }), ..self }
    }

    /// The registry after positional slot `i` parses `tok`.
    pub open spec fn set_pos(self, i: int, tok: Seq<char>) -> ParserModel {
        ParserModel {
            pos: self.pos.update(i, PosModel { val: parsed(self.pos[i].kind, tok), ..self.pos[i] }),
            ..self
        }
    }

    /// The registry after key-value argument `k` parses `tok`.
    pub open spec fn set_kv(self, k: int, tok: Seq<char>) -> ParserModel {
        ParserModel {
            kv: self.kv.update(k, KvModel { val: parsed(self.kv[k].kind, tok), ..self.kv[k] }),
            ..self
        }
    }

    /// The registry after flag `f` is supplied.
    pub open spec fn set_flag(self, f: int) -> ParserModel {
        ParserModel { flags: self.flags.update(f, FlagModel { found: true, ..self.flags[f] }), ..self }
    }

    /// Matches `tokens` from index `i` on, with the first `cursor` positional slots used.
    pub open spec fn run(self, tokens: Seq<Seq<char>>, i: int, cursor: int) -> Result<ParserModel, ArgError>
        decreases tokens.len() - i,
    {
        if i < 0 || i >= tokens.len() {
            Ok(self)
        } else if is_key_token(tokens[i]) {
            let key = key_of(tokens[i]);
            match self.find_kv(key) {
                Some(k) => if self.kv[k].val.is_some() {
                    Err(ArgError::DuplicateKey { index: i as usize })
                } else if i + 1 >= tokens.len() {
                    Err(ArgError::MissingValue { index: i as usize })
                } else {
                    self.set_kv(k, tokens[i + 1]).run(tokens, i + 2, cursor)
                },
                None => match self.find_flag(key) {
                    Some(f) => if self.flags[f].found {
                        Err(ArgError::DuplicateKey { index: i as usize })
                    } else {
                        self.set_flag(f).run(tokens, i + 1, cursor)
                    },
                    None => Err(ArgError::UnknownKey { index: i as usize }),
                },
            }
        } else if cursor >= self.pos.len() {
            Err(ArgError::TooManyPositional { index: i as usize })
        } else {
            self.set_pos(cursor, tokens[i]).run(tokens, i + 1, cursor + 1)
        }
    }

    /// Why registering a key-value argument or a flag with these keys fails, if it does.
    pub open spec fn keyed_register_error(self, name: Seq<char>, short_key: Option<char>) -> Option<ArgError> {
        if name.len() <= 1 {
            Some(ArgError::NameTooShort)
        } else if self.key_taken(name) {
            Some(ArgError::NameTaken)
        } else if short_key.is_some() && self.key_taken(seq![short_key.unwrap()]) {
            Some(ArgError::AliasTaken)
        } else {
            None
        }
    }
}

struct PosSlot {
    name: String,
    desc: String,
    kind: ValueKind,
    val: Option<String>,
}

struct KvSlot {
    name: String,
    desc: String,
    short_key: Option<char>,
    kind: ValueKind,
    val: Option<String>,
}

struct FlagSlot {
    name: String,
    desc: String,
    short_key: Option<char>,
    found: bool,
}

impl View for PosSlot {
    type V = PosModel;

    closed spec fn view(&self) -> PosModel {
        PosModel { name: self.name@, desc: self.desc@, kind: self.kind, val: view_opt(self.val) }
    }
}

impl View for KvSlot {
    type V = KvModel;

    closed spec fn view(&self) -> KvModel {
        KvModel {
            name: self.name@,
            desc: self.desc@,
            short_key: self.short_key,
            kind: self.kind,
            val: view_opt(self.val),
        }
    }
}

impl View for FlagSlot {
    type V = FlagModel;

    closed spec fn view(&self) -> FlagModel {
        FlagModel { name: self.name@, desc: self.desc@, short_key: self.short_key, found: self.found }
    }
}

/// The argument registry and token matcher.
pub struct Parser {
    pos_args: Vec<PosSlot>,
    kv_args: Vec<KvSlot>,
    flag_args: Vec<FlagSlot>,
}

impl View for Parser {
    type V = ParserModel;

    closed spec fn view(&self) -> ParserModel {
        ParserModel {
            pos: self.pos_args@.map_values(|s: PosSlot| s@),
            kv: self.kv_args@.map_values(|s: KvSlot| s@),
            flags: self.flag_args@.map_values(|s: FlagSlot| s@),
        }
    }
}

/// Whether `key` is the long name or the alias of an argument.
fn matches_key(name: &String, short_key: Option<char>, key: &String) -> (r: bool)
    ensures
        r == has_key(name@, short_key, key@),
{
    if *name == *key {
        return true;
    }
    match short_key {
        Some(c) => is_single_char(key, c),
        None => false,
    }
}

/// Whether `s` is the one-character text `c`.
fn is_single_char(s: &String, c: char) -> (r: bool)
    ensures
        r == (s@ == seq![c]),
{
    let t = s.as_str();
    if t.unicode_len() == 1 && t.get_char(0) == c {
        assert(s@ =~= seq![c]);
        true
    } else {
        false
    }
}

/// Whether the alias `c` is the long name or the alias of an argument.
fn matches_alias(name: &String, short_key: Option<char>, c: char) -> (r: bool)
    ensures
        r == has_key(name@, short_key, seq![c]),
{
    if is_single_char(name, c) {
        return true;
    }
    match short_key {
        Some(d) => {
            assert(seq![c] == seq![d] ==> seq![c][0] == seq![d][0]);
            c == d
        },
        None => false,
    }
}

/// Two arguments that both answer to `key` clash.
proof fn lemma_shared_key_clash(
    name1: Seq<char>,
    short1: Option<char>,
    name2: Seq<char>,
    short2: Option<char>,
    key: Seq<char>,
)
    requires
        has_key(name1, short1, key),
        has_key(name2, short2, key),
    ensures
        keys_clash(name1, short1, name2, short2),
{
}

/// An argument whose keys are both untaken clashes with no registered one.
proof fn lemma_untaken_no_clash(m: ParserModel, name: Seq<char>, short_key: Option<char>)
    requires
        !m.key_taken(name),
        short_key.is_some() ==> !m.key_taken(seq![short_key.unwrap()]),
    ensures
        forall|i: int|
            0 <= i < m.kv.len() ==> !keys_clash(name, short_key, #[trigger] m.kv[i].name, m.kv[i].short_key)
                && !keys_clash(m.kv[i].name, m.kv[i].short_key, name, short_key),
        forall|i: int|
            0 <= i < m.flags.len() ==> !keys_clash(name, short_key, #[trigger] m.flags[i].name, m.flags[i].short_key)
                && !keys_clash(m.flags[i].name, m.flags[i].short_key, name, short_key),
{
    assert forall|i: int| 0 <= i < m.kv.len() implies !keys_clash(name, short_key, #[trigger] m.kv[i].name, m.kv[i].short_key)
        && !keys_clash(m.kv[i].name, m.kv[i].short_key, name, short_key) by {
        let (n, a) = (m.kv[i].name, m.kv[i].short_key);
        if has_key(name, short_key, n) {
            assert(has_key(n, a, n));
        }
        if a.is_some() && has_key(name, short_key, seq![a.unwrap()]) {
            assert(has_key(n, a, seq![a.unwrap()]));
        }
    }
    assert forall|i: int| 0 <= i < m.flags.len() implies !keys_clash(name, short_key, #[trigger] m.flags[i].name, m.flags[i].short_key)
        && !keys_clash(m.flags[i].name, m.flags[i].short_key, name, short_key) by {
        let (n, a) = (m.flags[i].name, m.flags[i].short_key);
        if has_key(name, short_key, n) {
            assert(has_key(n, a, n));
        }
        if a.is_some() && has_key(name, short_key, seq![a.unwrap()]) {
            assert(has_key(n, a, seq![a.unwrap()]));
        }
    }
}

impl Parser {
    pub open spec fn wf(&self) -> bool {
        self@.wf()
    }

    pub fn new() -> (r: Self)
        ensures
            r.wf(),
            r@ == ParserModel::empty(),
    {
        let r = Parser { pos_args: Vec::new(), kv_args: Vec::new(), flag_args: Vec::new() };
        assert(r@.pos =~= Seq::empty());
        assert(r@.kv =~= Seq::empty());
        assert(r@.flags =~= Seq::empty());
        r
    }

    fn pos_index(&self, name: &String) -> (r: Option<usize>)
        requires
            self.wf(),
        ensures
            match r {
                Some(i) => self@.find_pos(name@) == Some(i as int),
                None => self@.find_pos(name@).is_none(),
            },
    {
        let mut i: usize = 0;
        while i < self.pos_args.len()
            invariant
                self.wf(),
                i <= self.pos_args.len(),
                forall|j: int| 0 <= j < i ==> self@.pos[j].name != name@,
            decreases self.pos_args.len() - i,
        {
            if self.pos_args[i].name == *name {
                proof {
                    let m = self@;
                    assert(m.pos[i as int].name == name@);
                    assert(exists|k: int| 0 <= k < m.pos.len() && m.pos[k].name == name@);
                    let k = choose|k: int| 0 <= k < m.pos.len() && m.pos[k].name == name@;
                    if k < i {
                        assert(m.pos[k].name != m.pos[i as int].name);
                    } else if k > i {
                        assert(m.pos[i as int].name != m.pos[k].name);
                    }
                }
                return Some(i);
            }
            i = i + 1;
        }
        None
    }

    /// The key-value argument that `key` resolves to.
    fn kv_index(&self, key: &String) -> (r: Option<usize>)
        requires
            self.wf(),
        ensures
            match r {
                Some(i) => self@.find_kv(key@) == Some(i as int),
                None => self@.find_kv(key@).is_none(),
            },
    {
        let mut i: usize = 0;
        while i < self.kv_args.len()
            invariant
                self.wf(),
                i <= self.kv_args.len(),
                forall|j: int| 0 <= j < i ==> !has_key(self@.kv[j].name, self@.kv[j].short_key, key@),
            decreases self.kv_args.len() - i,
        {
            let slot = &self.kv_args[i];
            if matches_key(&slot.name, slot.short_key, key) {
                proof {
                    let m = self@;
                    assert(m.kv[i as int] == slot@);
                    assert(exists|k: int| 0 <= k < m.kv.len() && has_key(m.kv[k].name, m.kv[k].short_key, key@));
                    let k = choose|k: int| 0 <= k < m.kv.len() && has_key(m.kv[k].name, m.kv[k].short_key, key@);
                    if k != i {
                        lemma_shared_key_clash(m.kv[i as int].name, m.kv[i as int].short_key, m.kv[k].name, m.kv[k].short_key, key@);
                    }
                }
                return Some(i);
            }
            i = i + 1;
        }
        None
    }

    /// The flag that `key` resolves to.
    fn flag_index(&self, key: &String) -> (r: Option<usize>)
        requires
            self.wf(),
        ensures
            match r {
                Some(i) => self@.find_flag(key@) == Some(i as int),
                None => self@.find_flag(key@).is_none(),
            },
    {
        let mut i: usize = 0;
        while i < self.flag_args.len()
            invariant
                self.wf(),
                i <= self.flag_args.len(),
                forall|j: int| 0 <= j < i ==> !has_key(self@.flags[j].name, self@.flags[j].short_key, key@),
            decreases self.flag_args.len() - i,
        {
            let slot = &self.flag_args[i];
            if matches_key(&slot.name, slot.short_key, key) {
                proof {
                    let m = self@;
                    assert(m.flags[i as int] == slot@);
                    assert(exists|k: int| 0 <= k < m.flags.len() && has_key(m.flags[k].name, m.flags[k].short_key, key@));
                    let k = choose|k: int| 0 <= k < m.flags.len() && has_key(m.flags[k].name, m.flags[k].short_key, key@);
                    if k != i {
                        lemma_shared_key_clash(m.flags[i as int].name, m.flags[i as int].short_key, m.flags[k].name, m.flags[k].short_key, key@);
                    }
                }
                return Some(i);
            }
            i = i + 1;
        }
        None
    }

    /// Whether `key` is a long name or an alias of any key-value argument or flag.
    fn key_taken(&self, key: &String) -> (r: bool)
        requires
            self.wf(),
        ensures
            r == self@.key_taken(key@),
    {
        self.kv_index(key).is_some() || self.flag_index(key).is_some()
    }

    /// Whether the one-character key `c` is a long name or an alias of any key-value argument or flag.
    fn alias_taken(&self, c: char) -> (r: bool)
        ensures
            r == self@.key_taken(seq![c]),
    {
        let mut i: usize = 0;
        while i < self.kv_args.len()
            invariant
                i <= self.kv_args.len(),
                forall|j: int| 0 <= j < i ==> !has_key(self@.kv[j].name, self@.kv[j].short_key, seq![c]),
            decreases self.kv_args.len() - i,
        {
            let slot = &self.kv_args[i];
            if matches_alias(&slot.name, slot.short_key, c) {
                assert(self@.kv[i as int] == slot@);
                return true;
            }
            i = i + 1;
        }
        let mut i: usize = 0;
        while i < self.flag_args.len()
            invariant
                i <= self.flag_args.len(),
                forall|j: int| 0 <= j < self.kv_args.len() ==> !has_key(self@.kv[j].name, self@.kv[j].short_key, seq![c]),
                forall|j: int| 0 <= j < i ==> !has_key(self@.flags[j].name, self@.flags[j].short_key, seq![c]),
            decreases self.flag_args.len() - i,
        {
            let slot = &self.flag_args[i];
            if matches_alias(&slot.name, slot.short_key, c) {
                assert(self@.flags[i as int] == slot@);
                return true;
            }
            i = i + 1;
        }
        false
    }

    fn kv_index_named(&self, name: &String) -> (r: Option<usize>)
        requires
            self.wf(),
        ensures
            match r {
                Some(i) => self@.find_kv_named(name@) == Some(i as int),
                None => self@.find_kv_named(name@).is_none(),
            },
    {
        let mut i: usize = 0;
        while i < self.kv_args.len()
            invariant
                self.wf(),
                i <= self.kv_args.len(),
                forall|j: int| 0 <= j < i ==> self@.kv[j].name != name@,
            decreases self.kv_args.len() - i,
        {
            if self.kv_args[i].name == *name {
                proof {
                    let m = self@;
                    assert(m.kv[i as int].name == name@);
                    assert(exists|k: int| 0 <= k < m.kv.len() && m.kv[k].name == name@);
                    let k = choose|k: int| 0 <= k < m.kv.len() && m.kv[k].name == name@;
                    if k != i {
                        lemma_shared_key_clash(m.kv[i as int].name, m.kv[i as int].short_key, m.kv[k].name, m.kv[k].short_key, name@);
                    }
                }
                return Some(i);
            }
            i = i + 1;
        }
        None
    }

    fn flag_index_named(&self, name: &String) -> (r: Option<usize>)
        requires
            self.wf(),
        ensures
            match r {
                Some(i) => self@.find_flag_named(name@) == Some(i as int),
                None => self@.find_flag_named(name@).is_none(),
            },
    {
        let mut i: usize = 0;
        while i < self.flag_args.len()
            invariant
                self.wf(),
                i <= self.flag_args.len(),
                forall|j: int| 0 <= j < i ==> self@.flags[j].name != name@,
            decreases self.flag_args.len() - i,
        {
            if self.flag_args[i].name == *name {
                proof {
                    let m = self@;
                    assert(m.flags[i as int].name == name@);
                    assert(exists|k: int| 0 <= k < m.flags.len() && m.flags[k].name == name@);
                    let k = choose|k: int| 0 <= k < m.flags.len() && m.flags[k].name == name@;
                    if k != i {
                        lemma_shared_key_clash(m.flags[i as int].name, m.flags[i as int].short_key, m.flags[k].name, m.flags[k].short_key, name@);
                    }
                }
                return Some(i);
            }
            i = i + 1;
        }
        None
    }

    /// Whether the positional slot `name` holds a value.
    pub(crate) fn pos_found(&self, name: &String) -> (r: bool)
        requires
            self.wf(),
        ensures
            r == self@.pos_found(name@),
    {
        match self.pos_index(name) {
            Some(i) => {
                assert(self@.pos[i as int] == self.pos_args[i as int]@);
                self.pos_args[i].val.is_some()
            },
            None => false,
        }
    }

    /// Whether the key-value argument `name` holds a value.
    pub(crate) fn kv_found(&self, name: &String) -> (r: bool)
        requires
            self.wf(),
        ensures
            r == self@.kv_found(name@),
    {
        match self.kv_index_named(name) {
            Some(i) => {
                assert(self@.kv[i as int] == self.kv_args[i as int]@);
                self.kv_args[i].val.is_some()
            },
            None => false,
        }
    }

    /// Whether the flag `name` was supplied.
    pub(crate) fn flag_found(&self, name: &String) -> (r: bool)
        requires
            self.wf(),
        ensures
            r == self@.flag_found(name@),
    {
        match self.flag_index_named(name) {
            Some(i) => {
                assert(self@.flags[i as int] == self.flag_args[i as int]@);
                self.flag_args[i].found
            },
            None => false,
        }
    }

    /// Hands out the token held by the positional slot `name` and clears it.
    pub(crate) fn take_pos(&mut self, name: &String) -> (r: Option<String>)
        requires
            old(self).wf(),
        ensures
            final(self).wf(),
            final(self)@ == old(self)@.take_pos(name@),
            view_opt(r) == old(self)@.pos_token(name@),
    {
        match self.pos_index(name) {
            Some(i) => {
                let ghost m = self@;
                let slot = &self.pos_args[i];
                let r = match &slot.val {
                    Some(t) => Some(t.clone()),
                    None => None,
                };
                let cleared = PosSlot { name: slot.name.clone(), desc: slot.desc.clone(), kind: slot.kind, val: None };
                self.pos_args.set(i, cleared);
                proof {
                    assert(self@.pos =~= m.pos.update(i as int, PosModel { val: None, ..m.pos[i as int] }));
                }
                r
            },
            None => None,
        }
    }

    /// Hands out the token held by the key-value argument `name` and clears it.
    pub(crate) fn take_kv(&mut self, name: &String) -> (r: Option<String>)
        requires
            old(self).wf(),
        ensures
            final(self).wf(),
            final(self)@ == old(self)@.take_kv(name@),
            view_opt(r) == old(self)@.kv_token(name@),
    {
        match self.kv_index_named(name) {
            Some(i) => {
                let ghost m = self@;
                let slot = &self.kv_args[i];
                let r = match &slot.val {
                    Some(t) => Some(t.clone()),
                    None => None,
                };
                let cleared = KvSlot {
                    name: slot.name.clone(),
                    desc: slot.desc.clone(),
                    short_key: slot.short_key,
                    kind: slot.kind,
                    val: None,
                };
                self.kv_args.set(i, cleared);
                proof {
                    assert(self@.kv =~= m.kv.update(i as int, KvModel { val: None, ..m.kv[i as int] }));
                }
                r
            },
            None => None,
        }
    }

    /// A copy of the registry.
    fn duplicate(&self) -> (r: Parser)
        ensures
            r@ == self@,
    {
        let mut pos_args: Vec<PosSlot> = Vec::new();
        let mut i: usize = 0;
        while i < self.pos_args.len()
            invariant
                i <= self.pos_args.len(),
                pos_args.len() == i,
                forall|j: int| 0 <= j < i ==> (#[trigger] pos_args@[j])@ == self@.pos[j],
            decreases self.pos_args.len() - i,
        {
            let s = &self.pos_args[i];
            let val = match &s.val {
                Some(t) => Some(t.clone()),
                None => None,
            };
            let c = PosSlot { name: s.name.clone(), desc: s.desc.clone(), kind: s.kind, val };
            pos_args.push(c);
            assert(self@.pos[i as int] == s@);
            i = i + 1;
        }
        let mut kv_args: Vec<KvSlot> = Vec::new();
        let mut i: usize = 0;
        while i < self.kv_args.len()
            invariant
                i <= self.kv_args.len(),
                kv_args.len() == i,
                forall|j: int| 0 <= j < i ==> (#[trigger] kv_args@[j])@ == self@.kv[j],
            decreases self.kv_args.len() - i,
        {
            let s = &self.kv_args[i];
            let val = match &s.val {
                Some(t) => Some(t.clone()),
                None => None,
            };
            let c = KvSlot { name: s.name.clone(), desc: s.desc.clone(), short_key: s.short_key, kind: s.kind, val };
            kv_args.push(c);
            assert(self@.kv[i as int] == s@);
            i = i + 1;
        }
        let mut flag_args: Vec<FlagSlot> = Vec::new();
        let mut i: usize = 0;
        while i < self.flag_args.len()
            invariant
                i <= self.flag_args.len(),
                flag_args.len() == i,
                forall|j: int| 0 <= j < i ==> (#[trigger] flag_args@[j])@ == self@.flags[j],
            decreases self.flag_args.len() - i,
        {
            let s = &self.flag_args[i];
            let c = FlagSlot { name: s.name.clone(), desc: s.desc.clone(), short_key: s.short_key, found: s.found };
            flag_args.push(c);
            assert(self@.flags[i as int] == s@);
            i = i + 1;
        }
        let r = Parser { pos_args, kv_args, flag_args };
        assert(r@.pos =~= self@.pos);
        assert(r@.kv =~= self@.kv);
        assert(r@.flags =~= self@.flags);
        r
    }

    /// Positional slot `i` parses `tok`.
    fn set_pos(&mut self, i: usize, tok: &String)
        requires
            old(self).wf(),
            i < old(self)@.pos.len(),
        ensures
            final(self).wf(),
            final(self)@ == old(self)@.set_pos(i as int, tok@),
    {
        let ghost m = self@;
        let s = &self.pos_args[i];
        assert(m.pos[i as int] == s@);
        assert(kind_ok(m.pos[i as int].kind));
        let val = if token_converts(s.kind, tok.as_str()) {
            Some(tok.clone())
        } else {
            None
        };
        let c = PosSlot { name: s.name.clone(), desc: s.desc.clone(), kind: s.kind, val };
        self.pos_args.set(i, c);
        assert(self@.pos =~= m.set_pos(i as int, tok@).pos);
        assert forall|a: int, b: int| 0 <= a < b < self@.pos.len() implies #[trigger] self@.pos[a].name != #[trigger] self@.pos[b].name by {
            assert(m.pos[a].name != m.pos[b].name);
        }
    }

    /// Key-value argument `k` parses `tok`.
    fn set_kv(&mut self, k: usize, tok: &String)
        requires
            old(self).wf(),
            k < old(self)@.kv.len(),
        ensures
            final(self).wf(),
            final(self)@ == old(self)@.set_kv(k as int, tok@),
    {
        let ghost m = self@;
        let s = &self.kv_args[k];
        assert(m.kv[k as int] == s@);
        assert(kind_ok(m.kv[k as int].kind));
        let val = if token_converts(s.kind, tok.as_str()) {
            Some(tok.clone())
        } else {
            None
        };
        let c = KvSlot { name: s.name.clone(), desc: s.desc.clone(), short_key: s.short_key, kind: s.kind, val };
        self.kv_args.set(k, c);
        assert(self@.kv =~= m.set_kv(k as int, tok@).kv);
        assert forall|a: int, b: int| 0 <= a < self@.kv.len() && 0 <= b < self@.kv.len() && a != b implies !keys_clash(
                #[trigger] self@.kv[a].name,
                self@.kv[a].short_key,
                #[trigger] self@.kv[b].name,
                self@.kv[b].short_key,
            ) by {
            assert(!keys_clash(m.kv[a].name, m.kv[a].short_key, m.kv[b].name, m.kv[b].short_key));
        }
        assert forall|a: int, b: int| 0 <= a < self@.kv.len() && 0 <= b < self@.flags.len() implies !keys_clash(
                #[trigger] self@.kv[a].name,
                self@.kv[a].short_key,
                #[trigger] self@.flags[b].name,
                self@.flags[b].short_key,
            ) by {
            assert(!keys_clash(m.kv[a].name, m.kv[a].short_key, m.flags[b].name, m.flags[b].short_key));
        }
    }

    /// Flag `f` is supplied.
    fn set_flag(&mut self, f: usize)
        requires
            old(self).wf(),
            f < old(self)@.flags.len(),
        ensures
            final(self).wf(),
            final(self)@ == old(self)@.set_flag(f as int),
    {
        let ghost m = self@;
        let s = &self.flag_args[f];
        assert(m.flags[f as int] == s@);
        let c = FlagSlot { name: s.name.clone(), desc: s.desc.clone(), short_key: s.short_key, found: true };
        self.flag_args.set(f, c);
        assert(self@.flags =~= m.set_flag(f as int).flags);
        assert forall|a: int, b: int| 0 <= a < self@.flags.len() && 0 <= b < self@.flags.len() && a != b implies !keys_clash(
                #[trigger] self@.flags[a].name,
                self@.flags[a].short_key,
                #[trigger] self@.flags[b].name,
                self@.flags[b].short_key,
            ) by {
            assert(!keys_clash(m.flags[a].name, m.flags[a].short_key, m.flags[b].name, m.flags[b].short_key));
        }
        assert forall|a: int, b: int| 0 <= a < self@.kv.len() && 0 <= b < self@.flags.len() implies !keys_clash(
                #[trigger] self@.kv[a].name,
                self@.kv[a].short_key,
                #[trigger] self@.flags[b].name,
                self@.flags[b].short_key,
            ) by {
            assert(!keys_clash(m.kv[a].name, m.kv[a].short_key, m.flags[b].name, m.flags[b].short_key));
        }
    }

    /// Matches `argv` against the registered arguments; `argv[0]`, the program path, is skipped.
    /// On failure the registry is left as it was.
    pub fn parse_vec(&mut self, argv: Vec<String>) -> (r: Result<(), ArgError>)
        requires
            old(self).wf(),
        ensures
            final(self).wf(),
            match r {
                Ok(()) => old(self)@.run(token_views(argv@), 1, 0) == Ok::<ParserModel, ArgError>(final(self)@),
                Err(e) => old(self)@.run(token_views(argv@), 1, 0) == Err::<ParserModel, ArgError>(e) && final(self)@ == old(self)@,
            },
    {
        let ghost toks = token_views(argv@);
        let mut work = self.duplicate();
        let mut i: usize = 1;
        let mut cursor: usize = 0;
        while i < argv.len()
            invariant
                work.wf(),
                self.wf(),
                toks == token_views(argv@),
                toks.len() == argv.len(),
                1 <= i,
                cursor <= i,
                work@.run(toks, i as int, cursor as int) == self@.run(toks, 1, 0),
            decreases argv.len() - i,
        {
            let tok = &argv[i];
            assert(toks[i as int] == tok@);
            let t = tok.as_str();
            let n = t.unicode_len();
            if n > 0 && t.get_char(0) == '-' {
                let from: usize = if n >= 2 && t.get_char(1) == '-' {
                    2
                } else {
                    1
                };
                let key = t.substring_char(from, n).to_owned();
                assert(key@ == key_of(tok@));
                match work.kv_index(&key) {
                    Some(k) => {
                        if work.kv_args[k].val.is_some() {
                            assert(work@.kv[k as int] == work.kv_args[k as int]@);
                            return Err(ArgError::DuplicateKey { index: i });
                        }
                        assert(work@.kv[k as int] == work.kv_args[k as int]@);
                        if i + 1 >= argv.len() {
                            return Err(ArgError::MissingValue { index: i });
                        }
                        assert(toks[i + 1] == argv@[i + 1]@);
                        work.set_kv(k, &argv[i + 1]);
                        i = i + 2;
                    },
                    None => {
                        match work.flag_index(&key) {
                            Some(f) => {
                                assert(work@.flags[f as int] == work.flag_args[f as int]@);
                                if work.flag_args[f].found {
                                    return Err(ArgError::DuplicateKey { index: i });
                                }
                                work.set_flag(f);
                                i = i + 1;
                            },
                            None => {
                                return Err(ArgError::UnknownKey { index: i });
                            },
                        }
                    },
                }
            } else {
                if cursor >= work.pos_args.len() {
                    return Err(ArgError::TooManyPositional { index: i });
                }
                work.set_pos(cursor, tok);
                cursor = cursor + 1;
                i = i + 1;
            }
        }
        *self = work;
        Ok(())
    }

    /// Registers a positional argument; it takes the next slot in order.
    pub fn add_pos_arg<A: PosArgBase>(&mut self, pos_arg: &A) -> (r: Result<(), ArgError>)
        requires
            old(self).wf(),
        ensures
            final(self).wf(),
            match r {
                Ok(()) => old(self)@.find_pos(pos_arg.spec_name()).is_none() && final(self)@ == old(self)@.with_pos(
                    pos_arg.spec_name(),
                    pos_arg.spec_desc(),
                    pos_arg.spec_kind(),
                ),
                Err(e) => old(self)@.find_pos(pos_arg.spec_name()).is_some() && e == ArgError::DuplicatePositional
                    && final(self)@ == old(self)@,
            },
    {
        let name = pos_arg.name().to_owned();
        if self.pos_index(&name).is_some() {
            return Err(ArgError::DuplicatePositional);
        }
        let slot = PosSlot { name, desc: pos_arg.desc().to_owned(), kind: pos_arg.kind(), val: None };
        let ghost m = self@;
        self.pos_args.push(slot);
        proof {
            assert(self@.pos =~= m.pos.push(slot@));
            assert(self@ == m.with_pos(pos_arg.spec_name(), pos_arg.spec_desc(), pos_arg.spec_kind()));
            assert forall|i: int| 0 <= i < self@.pos.len() - 1 implies self@.pos[i].name != pos_arg.spec_name() by {
                assert(self@.pos[i] == m.pos[i]);
            }
        }
        Ok(())
    }

    /// Registers a key-value argument under its long name and its alias, if any.
    pub fn add_kv_arg<A: KVArgBase>(&mut self, kv_arg: &A) -> (r: Result<(), ArgError>)
        requires
            old(self).wf(),
        ensures
            final(self).wf(),
            match r {
                Ok(()) => old(self)@.keyed_register_error(kv_arg.spec_name(), kv_arg.spec_short_key()).is_none()
                    && final(self)@ == old(self)@.with_kv(
                    kv_arg.spec_name(),
                    kv_arg.spec_desc(),
                    kv_arg.spec_short_key(),
                    kv_arg.spec_kind(),
                ),
                Err(e) => old(self)@.keyed_register_error(kv_arg.spec_name(), kv_arg.spec_short_key()) == Some(e)
                    && final(self)@ == old(self)@,
            },
    {
        let name = kv_arg.name().to_owned();
        if name.as_str().unicode_len() <= 1 {
            return Err(ArgError::NameTooShort);
        }
        if self.key_taken(&name) {
            return Err(ArgError::NameTaken);
        }
        let short_key = kv_arg.short_key();
        if let Some(c) = short_key {
            if self.alias_taken(c) {
                return Err(ArgError::AliasTaken);
            }
        }
        let slot = KvSlot { name, desc: kv_arg.desc().to_owned(), short_key, kind: kv_arg.kind(), val: None };
        let ghost m = self@;
        proof {
            lemma_untaken_no_clash(m, slot@.name, short_key);
        }
        self.kv_args.push(slot);
        proof {
            assert(self@.kv =~= m.kv.push(slot@));
            assert(self@ == m.with_kv(kv_arg.spec_name(), kv_arg.spec_desc(), short_key, kv_arg.spec_kind()));
        }
        Ok(())
    }

    /// Registers a flag under its long name and its alias, if any.
    pub fn add_flag_arg<A: FlagArgBase>(&mut self, flag_arg: &A) -> (r: Result<(), ArgError>)
        requires
            old(self).wf(),
        ensures
            final(self).wf(),
            match r {
                Ok(()) => old(self)@.keyed_register_error(flag_arg.spec_name(), flag_arg.spec_short_key()).is_none()
                    && final(self)@ == old(self)@.with_flag(
                    flag_arg.spec_name(),
                    flag_arg.spec_desc(),
                    flag_arg.spec_short_key(),
                ),
                Err(e) => old(self)@.keyed_register_error(flag_arg.spec_name(), flag_arg.spec_short_key()) == Some(e)
                    && final(self)@ == old(self)@,
            },
    {
        let name = flag_arg.name().to_owned();
        if name.as_str().unicode_len() <= 1 {
            return Err(ArgError::NameTooShort);
        }
        if self.key_taken(&name) {
            return Err(ArgError::NameTaken);
        }
        let short_key = flag_arg.short_key();
        if let Some(c) = short_key {
            if self.alias_taken(c) {
                return Err(ArgError::AliasTaken);
            }
        }
        let slot = FlagSlot { name, desc: flag_arg.desc().to_owned(), short_key, found: false };
        let ghost m = self@;
        proof {
            lemma_untaken_no_clash(m, slot@.name, short_key);
        }
        self.flag_args.push(slot);
        proof {
            assert(self@.flags =~= m.flags.push(slot@));
            assert(self@ == m.with_flag(flag_arg.spec_name(), flag_arg.spec_desc(), short_key));
        }
        Ok(())
    }
}

} // verus!
