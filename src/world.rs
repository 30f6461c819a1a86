use vstd::prelude::*;

verus! {

/// The label of the sprite the player drives.
pub open spec fn player_label() -> Seq<char> {
    seq!['p', 'l', 'a', 'y', 'e', 'r']
}

/// An entity of the play field, known by its label.
pub struct Sprite {
    pub label: String,
    pub x: i64,
    pub y: i64,
    /// Scale in percent of the picture's own size.
    pub scale_percent: u32,
    pub collision: bool,
}

/// Why a sprite could not be added.
#[derive(Debug, Clone, Copy, PartialEq, Eq, Structural)]
pub enum SpawnError {
    /// A sprite with the same label is already on the field.
    DuplicateLabel,
}

/// Whether some sprite of `s` carries label `l`.
pub open spec fn has_label(s: Seq<Sprite>, l: Seq<char>) -> bool {
    exists|i: int| 0 <= i < s.len() && (#[trigger] s[i]).label@ == l
}

/// No two sprites of `s` share a label.
pub open spec fn labels_unique(s: Seq<Sprite>) -> bool {
    forall|i: int, j: int|
        0 <= i < s.len() && 0 <= j < s.len() && i != j ==> (#[trigger] s[i]).label@ != (#[trigger] s[j]).label@
}

/// The sprite of `s` labelled `l`, where there is one.
pub open spec fn sprite_of(s: Seq<Sprite>, l: Seq<char>) -> Sprite {
    s[choose|i: int| 0 <= i < s.len() && (#[trigger] s[i]).label@ == l]
}

pub proof fn lemma_sprite_of(s: Seq<Sprite>, i: int)
    requires
        labels_unique(s),
        0 <= i < s.len(),
    ensures
        sprite_of(s, s[i].label@) == s[i],
{
    let l = s[i].label@;
    let k = choose|k: int| 0 <= k < s.len() && (#[trigger] s[k]).label@ == l;
    assert(0 <= k < s.len() && s[k].label@ == l);
}

/// The sprites of the field and its two text labels.
pub struct World {
    pub sprites: Vec<Sprite>,
    pub score_text: String,
    pub high_score_text: String,
}

impl World {
    /// Labels are unique and the player is on the field.
    pub open spec fn wf(&self) -> bool {
        labels_unique(self.sprites@) && has_label(self.sprites@, player_label())
    }

    /// The player's sprite.
    pub open spec fn player(&self) -> Sprite {
        sprite_of(self.sprites@, player_label())
    }

    /// Whether a sprite labelled `l` is on the field.
    pub open spec fn has(&self, l: Seq<char>) -> bool {
        has_label(self.sprites@, l)
    }

    /// The index of the sprite labelled `label`, if any.
    pub fn find(&self, label: &String) -> (r: Option<usize>)
        ensures
            r matches Some(i) ==> i < self.sprites@.len() && self.sprites@[i as int].label@ == label@,
            r is None ==> !self.has(label@),
    {
        let mut i: usize = 0;
        while i < self.sprites.len()
            invariant
                i <= self.sprites@.len(),
                forall|k: int| 0 <= k < i ==> (#[trigger] self.sprites@[k]).label@ != label@,
            decreases self.sprites@.len() - i,
        {
            if self.sprites[i].label.eq(label) {
                return Some(i);
            }
            i = i + 1;
        }
        None
    }

    /// Adds `sprite`, unless its label is taken: a label names one sprite only.
    pub fn add_sprite(&mut self, sprite: Sprite) -> (r: Result<(), SpawnError>)
        ensures
            r is Err <==> old(self).has(sprite.label@),
            r is Ok ==> final(self).sprites@ == old(self).sprites@.push(sprite),
            r is Err ==> final(self).sprites@ == old(self).sprites@,
            final(self).score_text == old(self).score_text,
            final(self).high_score_text == old(self).high_score_text,
    {
        match self.find(&sprite.label) {
            Some(_) => Err(SpawnError::DuplicateLabel),
            None => {
                self.sprites.push(sprite);
                Ok(())
            },
        }
    }

    /// Removes the sprite labelled `label`; nothing happens where there is none.
    pub fn remove_sprite(&mut self, label: &String) -> (r: Option<Sprite>)
        ensures
            r is Some <==> old(self).has(label@),
            r matches Some(sp) ==> exists|i: int|
                0 <= i < old(self).sprites@.len() && old(self).sprites@[i] == sp
                    && sp.label@ == label@ && final(self).sprites@ == old(self).sprites@.remove(i),
            r is None ==> final(self).sprites@ == old(self).sprites@,
            final(self).score_text == old(self).score_text,
            final(self).high_score_text == old(self).high_score_text,
    {
        match self.find(label) {
            Some(i) => {
                let sp = self.sprites.remove(i);
                Some(sp)
            },
            None => None,
        }
    }
}

/// Removing the sprite at `i` keeps labels unique, drops exactly the label of
/// that sprite, and leaves every other sprite as it was.
pub proof fn lemma_remove(s: Seq<Sprite>, i: int)
    requires
        labels_unique(s),
        0 <= i < s.len(),
    ensures
        labels_unique(s.remove(i)),
        forall|l: Seq<char>| #[trigger] has_label(s.remove(i), l) <==> has_label(s, l) && l != s[i].label@,
        forall|l: Seq<char>|
            has_label(s, l) && l != s[i].label@ ==> #[trigger] sprite_of(s.remove(i), l) == sprite_of(s, l),
{
    let r = s.remove(i);
    assert forall|a: int, b: int|
        0 <= a < r.len() && 0 <= b < r.len() && a != b implies (#[trigger] r[a]).label@ != (#[trigger] r[b]).label@ by {
        let a0 = if a < i { a } else { a + 1 };
        let b0 = if b < i { b } else { b + 1 };
        assert(r[a] == s[a0] && r[b] == s[b0]);
    }
    assert forall|l: Seq<char>| #[trigger] has_label(r, l) <==> has_label(s, l) && l != s[i].label@ by {
        if has_label(r, l) {
            let a = choose|a: int| 0 <= a < r.len() && (#[trigger] r[a]).label@ == l;
            let a0 = if a < i { a } else { a + 1 };
            assert(r[a] == s[a0]);
        }
        if has_label(s, l) && l != s[i].label@ {
            let a0 = choose|a: int| 0 <= a < s.len() && (#[trigger] s[a]).label@ == l;
            let a = if a0 < i { a0 } else { a0 - 1 };
            assert(r[a] == s[a0]);
        }
    }
    assert forall|l: Seq<char>|
        has_label(s, l) && l != s[i].label@ implies #[trigger] sprite_of(r, l) == sprite_of(s, l) by {
        let a0 = choose|a: int| 0 <= a < s.len() && (#[trigger] s[a]).label@ == l;
        let a = if a0 < i { a0 } else { a0 - 1 };
        assert(r[a] == s[a0]);
        lemma_sprite_of(s, a0);
        lemma_sprite_of(r, a);
    }
}

/// Adding a sprite with a fresh label keeps labels unique, adds exactly that
/// label, and leaves every other sprite as it was.
pub proof fn lemma_push(s: Seq<Sprite>, sp: Sprite)
    requires
        labels_unique(s),
        !has_label(s, sp.label@),
    ensures
        labels_unique(s.push(sp)),
        forall|l: Seq<char>| #[trigger] has_label(s.push(sp), l) <==> has_label(s, l) || l == sp.label@,
        forall|l: Seq<char>| has_label(s, l) ==> #[trigger] sprite_of(s.push(sp), l) == sprite_of(s, l),
{
    let r = s.push(sp);
    assert forall|a: int, b: int|
        0 <= a < r.len() && 0 <= b < r.len() && a != b implies (#[trigger] r[a]).label@ != (#[trigger] r[b]).label@ by {
        if a < s.len() && b < s.len() {
            assert(r[a] == s[a] && r[b] == s[b]);
        } else if a < s.len() {
            assert(r[a] == s[a]);
        } else {
            assert(r[b] == s[b]);
        }
    }
    assert forall|l: Seq<char>| #[trigger] has_label(r, l) <==> has_label(s, l) || l == sp.label@ by {
        if has_label(r, l) {
            let a = choose|a: int| 0 <= a < r.len() && (#[trigger] r[a]).label@ == l;
            if a < s.len() {
                assert(r[a] == s[a]);
            }
        }
        if has_label(s, l) {
            let a = choose|a: int| 0 <= a < s.len() && (#[trigger] s[a]).label@ == l;
            assert(r[a] == s[a]);
        }
        if l == sp.label@ {
            assert(r[s.len() as int] == sp);
        }
    }
    assert forall|l: Seq<char>| has_label(s, l) implies #[trigger] sprite_of(r, l) == sprite_of(s, l) by {
        let a = choose|a: int| 0 <= a < s.len() && (#[trigger] s[a]).label@ == l;
        assert(r[a] == s[a]);
        lemma_sprite_of(s, a);
        lemma_sprite_of(r, a);
    }
}

} // verus!
