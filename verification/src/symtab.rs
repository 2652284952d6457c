//! The flat symbol table and the string pool.
//!
//! Variables live in one global namespace: a name maps to a storage
//! label `__var_<name>` and an initial value, and redeclaration is
//! rejected. String literals are interned structurally: equal text maps
//! to exactly one label `__str_<n>`.

use vstd::prelude::*;

verus! {

/// The initial value recorded for a declared variable: an integer
/// constant, or a reference into the string pool.
#[derive(Copy, Clone, Debug, PartialEq, Eq, Structural)]
pub enum VarInit {
    Int(i64),
    StrRef(usize),
}

/// Mathematical view of `VarInit`.
#[derive(PartialEq, Eq, Structural)]
pub enum VarInitView {
    Int(int),
    StrRef(int),
}

impl View for VarInit {
    type V = VarInitView;

    open spec fn view(&self) -> VarInitView {
        match self {
            VarInit::Int(n) => VarInitView::Int(*n as int),
            VarInit::StrRef(i) => VarInitView::StrRef(*i as int),
        }
    }
}

/// Mathematical view of the symbol table: declared variables in
/// declaration order, and interned string texts in interning order (the
/// pool index is the label number).
#[verifier::ext_equal]
pub struct SymTabView {
    pub vars: Seq<(Seq<char>, VarInitView)>,
    pub strings: Seq<Seq<char>>,
}

/// Index of the entry declaring `name`, if any.
pub open spec fn sp_lookup(vars: Seq<(Seq<char>, VarInitView)>, name: Seq<char>) -> Option<int>
    decreases vars,
{
    if vars.len() == 0 {
        None
    } else if vars[0].0 == name {
        Some(0int)
    } else {
        match sp_lookup(vars.subrange(1, vars.len() as int), name) {
            Some(i) => Some(i + 1),
            None => None,
        }
    }
}

/// Whether `name` is declared.
pub open spec fn sp_declared(st: SymTabView, name: Seq<char>) -> bool {
    sp_lookup(st.vars, name) is Some
}

/// What declaring a variable does: a redeclaration is rejected and the
/// table keeps its first entry; a fresh name is appended.
pub open spec fn sp_decl(st: SymTabView, name: Seq<char>, init: VarInitView) -> (bool, SymTabView) {
    if sp_declared(st, name) {
        (false, st)
    } else {
        (true, SymTabView { vars: st.vars.push((name, init)), strings: st.strings })
    }
}

/// Index of the pool entry holding `text`, if it was interned before.
pub open spec fn sp_find_str(strings: Seq<Seq<char>>, text: Seq<char>) -> Option<int>
    decreases strings,
{
    if strings.len() == 0 {
        None
    } else if strings[0] == text {
        Some(0int)
    } else {
        match sp_find_str(strings.subrange(1, strings.len() as int), text) {
            Some(i) => Some(i + 1),
            None => None,
        }
    }
}

/// What interning does: known text resolves to its existing label,
/// fresh text is appended and gets the next label.
pub open spec fn sp_intern(st: SymTabView, text: Seq<char>) -> (int, SymTabView) {
    match sp_find_str(st.strings, text) {
        Some(i) => (i, st),
        None => (st.strings.len() as int, SymTabView { vars: st.vars, strings: st.strings.push(text) }),
    }
}

/// The flat symbol table: declared variables and the interned string
/// pool.
pub struct SymTab {
    pub vars: Vec<(String, VarInit)>,
    pub strings: Vec<String>,
}

impl View for SymTab {
    type V = SymTabView;

    open spec fn view(&self) -> SymTabView {
        SymTabView {
            vars: Seq::new(self.vars@.len(), |i: int| (self.vars@[i].0@, self.vars@[i].1@)),
            strings: Seq::new(self.strings@.len(), |i: int| self.strings@[i]@),
        }
    }
}

impl SymTab {
    /// Empty table.
    pub fn new() -> (r: SymTab)
        ensures
            r@.vars == Seq::<(Seq<char>, VarInitView)>::empty(),
            r@.strings == Seq::<Seq<char>>::empty(),
    {
        let r = SymTab { vars: Vec::new(), strings: Vec::new() };
        proof {
            assert(r@.vars =~= Seq::<(Seq<char>, VarInitView)>::empty());
            assert(r@.strings =~= Seq::<Seq<char>>::empty());
        }
        r
    }

    /// Index of the entry declaring `name`, if any.
    pub fn get_var(&self, name: &String) -> (r: Option<usize>)
        ensures
            (match r {
                Some(i) => sp_lookup(self@.vars, name@) == Some(i as int) && i < self.vars.len(),
                None => sp_lookup(self@.vars, name@) is None,
            }),
    {
        let n = self.vars.len();
        let mut i: usize = 0;
        while i < n
            invariant
                i <= n,
                n == self.vars.len(),
                sp_lookup_from(self@.vars, name@, 0) == sp_lookup_from(self@.vars, name@, i as int),
                forall|j: int| 0 <= j < i ==> self@.vars[j].0 != name@,
            decreases n - i,
        {
            if self.vars[i].0 == *name {
                proof {
                    lemma_lookup_from_found(self@.vars, name@, i as int);
                    lemma_lookup_from_is_lookup(self@.vars, name@);
                }
                return Some(i);
            }
            proof {
                lemma_lookup_from_step(self@.vars, name@, i as int);
            }
            i = i + 1;
        }
        proof {
            lemma_lookup_from_end(self@.vars, name@);
            lemma_lookup_from_is_lookup(self@.vars, name@);
        }
        None
    }

    /// Record a declaration; rejected when `name` is already declared,
    /// and the first declaration is retained.
    pub fn decl(&mut self, name: String, init: VarInit) -> (r: Option<()>)
        ensures
            r is Some <==> sp_decl(old(self)@, name@, init@).0,
            final(self)@ == sp_decl(old(self)@, name@, init@).1,
    {
        if self.get_var(&name).is_some() {
            proof {
                assert(self@ =~= sp_decl(self@, name@, init@).1) by {
                    assert(self@.vars =~= sp_decl(self@, name@, init@).1.vars);
                    assert(self@.strings =~= sp_decl(self@, name@, init@).1.strings);
                };
            }
            return None;
        }
        let ghost pre = self@;
        self.vars.push((name, init));
        proof {
            assert(self@.vars =~= pre.vars.push((name@, init@)));
            assert(self@.strings =~= pre.strings);
        }
        Some(())
    }

    /// Intern a string literal, returning its label number.
    pub fn add_string(&mut self, s: String) -> (r: usize)
        ensures
            r as int == sp_intern(old(self)@, s@).0,
            final(self)@ == sp_intern(old(self)@, s@).1,
    {
        let n = self.strings.len();
        let mut i: usize = 0;
        while i < n
            invariant
                i <= n,
                n == self.strings.len(),
                sp_find_from(self@.strings, s@, 0) == sp_find_from(self@.strings, s@, i as int),
                forall|j: int| 0 <= j < i ==> self@.strings[j] != s@,
            decreases n - i,
        {
            if self.strings[i] == s {
                proof {
                    lemma_find_from_found(self@.strings, s@, i as int);
                    lemma_find_from_is_find(self@.strings, s@);
                }
                return i;
            }
            proof {
                lemma_find_from_step(self@.strings, s@, i as int);
            }
            i = i + 1;
        }
        proof {
            lemma_find_from_end(self@.strings, s@);
            lemma_find_from_is_find(self@.strings, s@);
        }
        let ghost pre = self@;
        self.strings.push(s);
        proof {
            assert(self@.strings =~= pre.strings.push(s@));
            assert(self@.vars =~= pre.vars);
        }
        n
    }
}

/// Lookup restarted at position `i`, used to state loop invariants.
pub open spec fn sp_lookup_from(vars: Seq<(Seq<char>, VarInitView)>, name: Seq<char>, i: int) -> Option<
    int,
>
    decreases vars.len() - i,
{
    if i < 0 || i >= vars.len() {
        None
    } else if vars[i].0 == name {
        Some(i)
    } else {
        sp_lookup_from(vars, name, i + 1)
    }
}

proof fn lemma_lookup_from_step(vars: Seq<(Seq<char>, VarInitView)>, name: Seq<char>, i: int)
    requires
        0 <= i < vars.len(),
        vars[i].0 != name,
    ensures
        sp_lookup_from(vars, name, i) == sp_lookup_from(vars, name, i + 1),
{
}

proof fn lemma_lookup_from_found(vars: Seq<(Seq<char>, VarInitView)>, name: Seq<char>, i: int)
    requires
        0 <= i < vars.len(),
        vars[i].0 == name,
    ensures
        sp_lookup_from(vars, name, i) == Some(i),
{
}

proof fn lemma_lookup_from_end(vars: Seq<(Seq<char>, VarInitView)>, name: Seq<char>)
    ensures
        sp_lookup_from(vars, name, vars.len() as int) is None,
{
}

/// `sp_lookup` and `sp_lookup_from` agree.
proof fn lemma_lookup_from_is_lookup(vars: Seq<(Seq<char>, VarInitView)>, name: Seq<char>)
    ensures
        sp_lookup(vars, name) == sp_lookup_from(vars, name, 0),
    decreases vars.len(),
{
    if vars.len() == 0 {
    } else if vars[0].0 == name {
    } else {
        let tail = vars.subrange(1, vars.len() as int);
        lemma_lookup_from_is_lookup(tail, name);
        lemma_lookup_from_shift(vars, name, 0);
    }
}

/// Restarting lookup one past the head equals lookup in the tail,
/// shifted by one.
proof fn lemma_lookup_from_shift(vars: Seq<(Seq<char>, VarInitView)>, name: Seq<char>, i: int)
    requires
        vars.len() > 0,
        0 <= i,
    ensures
        (match sp_lookup_from(vars.subrange(1, vars.len() as int), name, i) {
            Some(j) => sp_lookup_from(vars, name, i + 1) == Some(j + 1),
            None => sp_lookup_from(vars, name, i + 1) is None,
        }),
    decreases vars.len() - i,
{
    let tail = vars.subrange(1, vars.len() as int);
    if i >= tail.len() {
    } else {
        if tail[i].0 == name {
        } else {
            lemma_lookup_from_shift(vars, name, i + 1);
        }
    }
}

/// String search restarted at position `i`.
pub open spec fn sp_find_from(strings: Seq<Seq<char>>, text: Seq<char>, i: int) -> Option<int>
    decreases strings.len() - i,
{
    if i < 0 || i >= strings.len() {
        None
    } else if strings[i] == text {
        Some(i)
    } else {
        sp_find_from(strings, text, i + 1)
    }
}

proof fn lemma_find_from_step(strings: Seq<Seq<char>>, text: Seq<char>, i: int)
    requires
        0 <= i < strings.len(),
        strings[i] != text,
    ensures
        sp_find_from(strings, text, i) == sp_find_from(strings, text, i + 1),
{
}

proof fn lemma_find_from_found(strings: Seq<Seq<char>>, text: Seq<char>, i: int)
    requires
        0 <= i < strings.len(),
        strings[i] == text,
    ensures
        sp_find_from(strings, text, i) == Some(i),
{
}

proof fn lemma_find_from_end(strings: Seq<Seq<char>>, text: Seq<char>)
    ensures
        sp_find_from(strings, text, strings.len() as int) is None,
{
}

/// `sp_find_str` and `sp_find_from` agree.
proof fn lemma_find_from_is_find(strings: Seq<Seq<char>>, text: Seq<char>)
    ensures
        sp_find_str(strings, text) == sp_find_from(strings, text, 0),
    decreases strings.len(),
{
    if strings.len() == 0 {
    } else if strings[0] == text {
    } else {
        let tail = strings.subrange(1, strings.len() as int);
        lemma_find_from_is_find(tail, text);
        lemma_find_from_shift(strings, text, 0);
    }
}

proof fn lemma_find_from_shift(strings: Seq<Seq<char>>, text: Seq<char>, i: int)
    requires
        strings.len() > 0,
        0 <= i,
    ensures
        (match sp_find_from(strings.subrange(1, strings.len() as int), text, i) {
            Some(j) => sp_find_from(strings, text, i + 1) == Some(j + 1),
            None => sp_find_from(strings, text, i + 1) is None,
        }),
    decreases strings.len() - i,
{
    let tail = strings.subrange(1, strings.len() as int);
    if i >= tail.len() {
    } else {
        if tail[i] == text {
        } else {
            lemma_find_from_shift(strings, text, i + 1);
        }
    }
}

/// Declaring a fresh name appends its entry, which lookup then finds.
pub proof fn lemma_lookup_push(vars: Seq<(Seq<char>, VarInitView)>, name: Seq<char>, init: VarInitView)
    requires
        sp_lookup(vars, name) is None,
    ensures
        sp_lookup(vars.push((name, init)), name) == Some(vars.len() as int),
        vars.push((name, init))[vars.len() as int] == (name, init),
    decreases vars.len(),
{
    if vars.len() == 0 {
        assert(vars.push((name, init))[0] == (name, init));
    } else {
        assert(vars.push((name, init))[0] == vars[0]);
        lemma_lookup_push(vars.subrange(1, vars.len() as int), name, init);
        assert(vars.push((name, init)).subrange(1, vars.push((name, init)).len() as int)
            =~= vars.subrange(1, vars.len() as int).push((name, init)));
    }
}

/// Redeclaring a name is rejected and leaves the table unchanged, so
/// the first declaration's entry is retained.
pub proof fn lemma_redeclaration_rejected(st: SymTabView, name: Seq<char>, init: VarInitView)
    requires
        sp_declared(st, name),
    ensures
        !sp_decl(st, name, init).0,
        sp_decl(st, name, init).1 == st,
{
}

/// Interning the same text twice resolves both uses to the same label
/// and leaves the pool unchanged the second time.
pub proof fn lemma_intern_same_text(st: SymTabView, text: Seq<char>)
    ensures
        ({
            let (l1, st1) = sp_intern(st, text);
            let (l2, st2) = sp_intern(st1, text);
            l2 == l1 && st2 == st1
        }),
{
    let (l1, st1) = sp_intern(st, text);
    match sp_find_str(st.strings, text) {
        Some(i) => {
            lemma_find_str_stable(st.strings, text);
        },
        None => {
            lemma_find_str_push(st.strings, text);
        },
    }
}

/// Interning distinct texts yields distinct labels.
pub proof fn lemma_intern_distinct_texts(st: SymTabView, t1: Seq<char>, t2: Seq<char>)
    requires
        t1 != t2,
    ensures
        ({
            let (l1, st1) = sp_intern(st, t1);
            let (l2, st2) = sp_intern(st1, t2);
            l2 != l1
        }),
{
    let (l1, st1) = sp_intern(st, t1);
    lemma_find_str_bounds(st.strings, t1);
    lemma_find_str_bounds(st1.strings, t2);
    match sp_find_str(st.strings, t1) {
        Some(i) => {
            lemma_find_str_text(st.strings, t1);
            lemma_find_str_text(st1.strings, t2);
        },
        None => {
            lemma_find_str_text(st1.strings, t2);
            match sp_find_str(st1.strings, t2) {
                Some(j) => {
                    if j == l1 {
                        assert(st1.strings[j] == t1);
                    }
                },
                None => {},
            }
        },
    }
}

/// A found index is in bounds.
proof fn lemma_find_str_bounds(strings: Seq<Seq<char>>, text: Seq<char>)
    ensures
        (match sp_find_str(strings, text) {
            Some(i) => 0 <= i < strings.len(),
            None => true,
        }),
    decreases strings.len(),
{
    if strings.len() > 0 && strings[0] != text {
        lemma_find_str_bounds(strings.subrange(1, strings.len() as int), text);
    }
}

/// A found index holds the text searched for.
proof fn lemma_find_str_text(strings: Seq<Seq<char>>, text: Seq<char>)
    ensures
        (match sp_find_str(strings, text) {
            Some(i) => 0 <= i < strings.len() && strings[i] == text,
            None => forall|i: int| 0 <= i < strings.len() ==> strings[i] != text,
        }),
    decreases strings.len(),
{
    if strings.len() > 0 && strings[0] != text {
        lemma_find_str_text(strings.subrange(1, strings.len() as int), text);
        assert forall|i: int| 1 <= i < strings.len() implies strings[i] == strings.subrange(
            1,
            strings.len() as int,
        )[i - 1] by {}
    }
}

/// A search that found its text finds the same entry again.
proof fn lemma_find_str_stable(strings: Seq<Seq<char>>, text: Seq<char>)
    requires
        sp_find_str(strings, text) is Some,
    ensures
        sp_find_str(strings, text) == sp_find_str(strings, text),
{
}

/// Pushing text that was absent makes the search find exactly the new
/// entry.
proof fn lemma_find_str_push(strings: Seq<Seq<char>>, text: Seq<char>)
    requires
        sp_find_str(strings, text) is None,
    ensures
        sp_find_str(strings.push(text), text) == Some(strings.len() as int),
    decreases strings.len(),
{
    if strings.len() == 0 {
        assert(strings.push(text)[0] == text);
    } else {
        assert(strings.push(text)[0] == strings[0]);
        lemma_find_str_push(strings.subrange(1, strings.len() as int), text);
        assert(strings.push(text).subrange(1, strings.push(text).len() as int) =~= strings.subrange(
            1,
            strings.len() as int,
        ).push(text));
    }
}

} // verus!
