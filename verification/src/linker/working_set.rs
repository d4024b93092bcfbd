//! The objects loaded so far, the order symbols are searched in, and the
//! link map built from them.
use vstd::prelude::*;
use crate::memory::{copy_range, bytes_eq};
use crate::kernel_block::strs_view;
use crate::binary::elf::image::SharedObject;
use crate::linker::Linker;

verus! {

/// No object of the working set was requested under the same name as
/// another.
pub open spec fn ws_keys_unique(ws: Seq<(Vec<u8>, SharedObject)>) -> bool {
    forall|i: int, j: int| 0 <= i < j < ws.len() ==> (#[trigger] ws[i]).0@ != (#[trigger] ws[j]).0@
}

/// An object requested as `name` is in the working set.
pub open spec fn ws_has(ws: Seq<(Vec<u8>, SharedObject)>, name: Seq<u8>) -> bool {
    exists|i: int| 0 <= i < ws.len() && (#[trigger] ws[i]).0@ == name
}

/// No name occurs twice in `s`.
pub open spec fn no_dups(s: Seq<Seq<u8>>) -> bool {
    forall|i: int, j: int| 0 <= i < j < s.len() ==> s[i] != s[j]
}

/// `order` followed by each of `libs` that is not in it yet, in the order of
/// `libs` (a name repeated in `libs` is added once).
pub open spec fn append_new(order: Seq<Seq<u8>>, libs: Seq<Seq<u8>>) -> Seq<Seq<u8>>
    decreases libs.len(),
{
    if libs.len() == 0 {
        order
    } else {
        let prev = append_new(order, libs.drop_last());
        if prev.contains(libs.last()) {
            prev
        } else {
            prev.push(libs.last())
        }
    }
}

/// Adding the needed libraries of a loaded object to the search order keeps
/// it free of duplicates, keeps what it held in place, and leaves every
/// needed library in it.
pub proof fn lemma_append_new(order: Seq<Seq<u8>>, libs: Seq<Seq<u8>>)
    requires
        no_dups(order),
    ensures
        no_dups(append_new(order, libs)),
        append_new(order, libs).len() >= order.len(),
        append_new(order, libs).subrange(0, order.len() as int) == order,
        forall|k: int| 0 <= k < libs.len() ==> append_new(order, libs).contains(#[trigger] libs[k]),
    decreases libs.len(),
{
    if libs.len() > 0 {
        let prev = append_new(order, libs.drop_last());
        lemma_append_new(order, libs.drop_last());
        let r = append_new(order, libs);
        assert forall|k: int| 0 <= k < libs.len() implies r.contains(#[trigger] libs[k]) by {
            if k < libs.len() - 1 {
                assert(prev.contains(libs.drop_last()[k]));
                let w = choose|w: int| 0 <= w < prev.len() && prev[w] == libs.drop_last()[k];
                assert(r[w] == libs[k]);
            } else if !prev.contains(libs.last()) {
                assert(r[prev.len() as int] == libs[k]);
            }
        }
        assert(r.subrange(0, order.len() as int) =~= order) by {
            assert(prev.subrange(0, order.len() as int) == order);
        }
    }
}

/// Every library that a loaded object of `ws` needs is in the search order.
pub open spec fn order_closed(ws: Seq<(Vec<u8>, SharedObject)>, order: Seq<Seq<u8>>) -> bool {
    forall|i: int, k: int|
        0 <= i < ws.len() && 0 <= k < ws[i].1@.libs.len() ==> order.contains(
            #[trigger] ws[i].1@.libs[k],
        )
}

/// Recording a loaded object and adding its needed libraries to the search
/// order keeps the order closed: whatever any loaded object needs is in it.
pub proof fn lemma_add_loaded_keeps_closed(
    ws: Seq<(Vec<u8>, SharedObject)>,
    order: Seq<Seq<u8>>,
    entry: (Vec<u8>, SharedObject),
)
    requires
        order_closed(ws, order),
        no_dups(order),
    ensures
        order_closed(ws.push(entry), append_new(order, entry.1@.libs)),
        no_dups(append_new(order, entry.1@.libs)),
{
    let libs = entry.1@.libs;
    let next = append_new(order, libs);
    lemma_append_new(order, libs);
    let ws2 = ws.push(entry);
    assert forall|i: int, k: int|
        0 <= i < ws2.len() && 0 <= k < ws2[i].1@.libs.len() implies next.contains(
        #[trigger] ws2[i].1@.libs[k],
    ) by {
        if i < ws.len() {
            assert(ws2[i] == ws[i]);
            assert(order.contains(ws[i].1@.libs[k]));
            let w = choose|w: int| 0 <= w < order.len() && order[w] == ws[i].1@.libs[k];
            assert(next.subrange(0, order.len() as int)[w] == order[w]);
            assert(next[w] == ws2[i].1@.libs[k]);
        } else {
            assert(ws2[i] == entry);
            assert(next.contains(libs[k]));
        }
    }
}

/// Whether `s` holds `name`.
fn contains_name(s: &Vec<Vec<u8>>, name: &[u8]) -> (r: bool)
    ensures
        r == strs_view(s@).contains(name@),
{
    let mut i: usize = 0;
    while i < s.len()
        invariant
            i <= s@.len(),
            forall|k: int| 0 <= k < i ==> s@[k]@ != name@,
        decreases s@.len() - i,
    {
        if bytes_eq(s[i].as_slice(), name) {
            assert(strs_view(s@)[i as int] == name@);
            return true;
        }
        i = i + 1;
    }
    assert forall|k: int| 0 <= k < strs_view(s@).len() implies strs_view(s@)[k] != name@ by {
        assert(strs_view(s@)[k] == s@[k]@);
    }
    false
}

/// A copy of the byte string `s`.
pub(crate) fn copy_bytes(s: &[u8]) -> (r: Vec<u8>)
    ensures
        r@ == s@,
{
    let r = copy_range(s, 0, s.len());
    assert(r@ =~= s@);
    r
}

/// Appends a copy of `name` to the list of names `v`.
pub(crate) fn push_name(v: &mut Vec<Vec<u8>>, name: &[u8])
    ensures
        strs_view(final(v)@) == strs_view(old(v)@).push(name@),
{
    let c = copy_bytes(name);
    v.push(c);
    assert forall|k: int| 0 <= k < strs_view(v@).len() implies strs_view(v@)[k] == strs_view(
        old(v)@,
    ).push(name@)[k] by {
        if k < old(v)@.len() {
            assert(v@[k] == old(v)@[k]);
        }
    }
    assert(strs_view(v@) =~= strs_view(old(v)@).push(name@));
}

impl Linker {
    /// Whether an object was already loaded as `soname`.
    pub fn is_loaded(&self, soname: &[u8]) -> (r: bool)
        ensures
            r == ws_has(self.working_set@, soname@),
    {
        let mut i: usize = 0;
        while i < self.working_set.len()
            invariant
                i <= self.working_set@.len(),
                forall|k: int| 0 <= k < i ==> self.working_set@[k].0@ != soname@,
            decreases self.working_set@.len() - i,
        {
            if bytes_eq(self.working_set[i].0.as_slice(), soname) {
                return true;
            }
            i = i + 1;
        }
        false
    }

    /// Records `so`, just loaded as `soname`, and adds its needed libraries
    /// that are not in the search order yet to its end (breadth first).
    /// Returns the needed libraries, which are to be loaded next.
    pub fn add_loaded(&mut self, soname: &[u8], so: SharedObject) -> (r: Vec<Vec<u8>>)
        requires
            !ws_has(old(self).working_set@, soname@),
        ensures
            final(self).working_set@.len() == old(self).working_set@.len() + 1,
            final(self).working_set@.subrange(0, old(self).working_set@.len() as int)
                == old(self).working_set@,
            final(self).working_set@.last().0@ == soname@,
            final(self).working_set@.last().1@ == so@,
            strs_view(final(self).link_map_order@) == append_new(
                strs_view(old(self).link_map_order@),
                so@.libs,
            ),
            strs_view(r@) == so@.libs,
            final(self).base == old(self).base,
            final(self).load_bias == old(self).load_bias,
            final(self).ehdr == old(self).ehdr,
            final(self).phdrs == old(self).phdrs,
            final(self).dynamic == old(self).dynamic,
            final(self).config == old(self).config,
            final(self).link_map == old(self).link_map,
    {
        let mut libs: Vec<Vec<u8>> = Vec::new();
        let mut i: usize = 0;
        while i < so.libs.len()
            invariant
                i <= so.libs@.len(),
                strs_view(libs@) == strs_view(so.libs@).subrange(0, i as int),
            decreases so.libs@.len() - i,
        {
            push_name(&mut libs, so.libs[i].as_slice());
            assert(strs_view(so.libs@).subrange(0, i + 1) =~= strs_view(so.libs@).subrange(
                0,
                i as int,
            ).push(so.libs@[i as int]@));
            i = i + 1;
        }
        assert(strs_view(so.libs@).subrange(0, so.libs@.len() as int) =~= strs_view(so.libs@));
        assert(strs_view(so.libs@) =~= so@.libs);
        let ghost old_ws = self.working_set@;
        let ghost so_view = so@;
        self.working_set.push((copy_bytes(soname), so));
        assert(self.working_set@.subrange(0, old_ws.len() as int) =~= old_ws);
        let ghost ws1 = self.working_set@;
        let mut k: usize = 0;
        let ghost order0 = strs_view(self.link_map_order@);
        while k < libs.len()
            invariant
                k <= libs@.len(),
                strs_view(libs@) == so_view.libs,
                strs_view(self.link_map_order@) == append_new(
                    order0,
                    strs_view(libs@).subrange(0, k as int),
                ),
                self.working_set@ == ws1,
                self.base == old(self).base,
                self.load_bias == old(self).load_bias,
                self.ehdr == old(self).ehdr,
                self.phdrs == old(self).phdrs,
                self.dynamic == old(self).dynamic,
                self.config == old(self).config,
                self.link_map == old(self).link_map,
            decreases libs@.len() - k,
        {
            let ghost prefix = strs_view(libs@).subrange(0, k + 1);
            assert(prefix.drop_last() =~= strs_view(libs@).subrange(0, k as int));
            assert(prefix.last() == libs@[k as int]@);
            if !contains_name(&self.link_map_order, libs[k].as_slice()) {
                push_name(&mut self.link_map_order, libs[k].as_slice());
            }
            k = k + 1;
        }
        assert(strs_view(libs@).subrange(0, libs@.len() as int) =~= strs_view(libs@));
        libs
    }

    /// Puts the executable's needed libraries after what the search order
    /// already holds, as the executable lists them.
    pub fn enqueue_needed(&mut self, libs: &Vec<Vec<u8>>)
        ensures
            strs_view(final(self).link_map_order@) == strs_view(old(self).link_map_order@)
                + strs_view(libs@),
            final(self).working_set == old(self).working_set,
            final(self).link_map == old(self).link_map,
            final(self).config == old(self).config,
    {
        let ghost order0 = strs_view(self.link_map_order@);
        let mut i: usize = 0;
        while i < libs.len()
            invariant
                i <= libs@.len(),
                strs_view(self.link_map_order@) == order0 + strs_view(libs@.subrange(0, i as int)),
                self.working_set == old(self).working_set,
                self.link_map == old(self).link_map,
                self.config == old(self).config,
            decreases libs@.len() - i,
        {
            push_name(&mut self.link_map_order, libs[i].as_slice());
            assert(strs_view(libs@.subrange(0, i + 1)) =~= strs_view(libs@.subrange(0, i as int)).push(
                libs@[i as int]@,
            ));
            i = i + 1;
        }
        assert(libs@.subrange(0, libs@.len() as int) =~= libs@);
    }
}


/// The object requested as `name`, in a working set whose names are unique.
pub open spec fn ws_get(ws: Seq<(Vec<u8>, SharedObject)>, name: Seq<u8>) -> SharedObject {
    ws[choose|i: int| 0 <= i < ws.len() && (#[trigger] ws[i]).0@ == name].1
}

/// The objects of `ws` in the order `order` names them.
pub open spec fn ws_in_order(ws: Seq<(Vec<u8>, SharedObject)>, order: Seq<Seq<u8>>) -> Seq<
    SharedObject,
> {
    Seq::new(order.len(), |k: int| ws_get(ws, order[k]))
}

/// In a working set with unique names, the object requested under the
/// name of the `i`-th entry is that entry's object.
pub proof fn lemma_ws_get(ws: Seq<(Vec<u8>, SharedObject)>, i: int)
    requires
        ws_keys_unique(ws),
        0 <= i < ws.len(),
    ensures
        ws_get(ws, ws[i].0@) == ws[i].1,
        ws_has(ws, ws[i].0@),
{
    let name = ws[i].0@;
    assert(0 <= i < ws.len() && ws[i].0@ == name);
    let j = choose|j: int| 0 <= j < ws.len() && (#[trigger] ws[j]).0@ == name;
    if j != i {
        if j < i {
            assert(ws[j].0@ != ws[i].0@);
        } else {
            assert(ws[i].0@ != ws[j].0@);
        }
    }
}

/// Taking the `i`-th entry out of a working set with unique names keeps the
/// names unique, drops exactly that entry's name, and leaves what the
/// others were requested as unchanged.
pub proof fn lemma_ws_remove(ws: Seq<(Vec<u8>, SharedObject)>, i: int)
    requires
        ws_keys_unique(ws),
        0 <= i < ws.len(),
    ensures
        ws_keys_unique(ws.remove(i)),
        forall|name: Seq<u8>|
            #[trigger] ws_has(ws.remove(i), name) <==> (ws_has(ws, name) && name != ws[i].0@),
        forall|name: Seq<u8>|
            ws_has(ws.remove(i), name) ==> #[trigger] ws_get(ws.remove(i), name) == ws_get(
                ws,
                name,
            ),
{
    let r = ws.remove(i);
    assert forall|a: int, b: int| 0 <= a < b < r.len() implies (#[trigger] r[a]).0@ != (
    #[trigger] r[b]).0@ by {
        let a0 = if a < i { a } else { a + 1 };
        let b0 = if b < i { b } else { b + 1 };
        assert(r[a] == ws[a0]);
        assert(r[b] == ws[b0]);
        assert(ws[a0].0@ != ws[b0].0@);
    }
    assert forall|name: Seq<u8>|
        #[trigger] ws_has(r, name) <==> (ws_has(ws, name) && name != ws[i].0@) by {
        if ws_has(r, name) {
            let j = choose|j: int| 0 <= j < r.len() && (#[trigger] r[j]).0@ == name;
            let j0 = if j < i { j } else { j + 1 };
            assert(r[j] == ws[j0]);
            assert(ws[j0].0@ == name);
            if j0 < i {
                assert(ws[j0].0@ != ws[i].0@);
            } else {
                assert(ws[i].0@ != ws[j0].0@);
            }
        }
        if ws_has(ws, name) && name != ws[i].0@ {
            let j = choose|j: int| 0 <= j < ws.len() && (#[trigger] ws[j]).0@ == name;
            assert(j != i);
            let j1 = if j < i { j } else { j - 1 };
            assert(r[j1] == ws[j]);
        }
    }
    assert forall|name: Seq<u8>| ws_has(r, name) implies #[trigger] ws_get(r, name) == ws_get(
        ws,
        name,
    ) by {
        let j = choose|j: int| 0 <= j < r.len() && (#[trigger] r[j]).0@ == name;
        let j0 = if j < i { j } else { j + 1 };
        assert(r[j] == ws[j0]);
        lemma_ws_get(r, j);
        lemma_ws_get(ws, j0);
    }
}

/// The index of the entry requested as `name`, if any.
fn ws_index(ws: &Vec<(Vec<u8>, SharedObject)>, name: &[u8]) -> (r: Option<usize>)
    ensures
        match r {
            Some(i) => i < ws@.len() && ws@[i as int].0@ == name@,
            None => !ws_has(ws@, name@),
        },
{
    let mut i: usize = 0;
    while i < ws.len()
        invariant
            i <= ws@.len(),
            forall|k: int| 0 <= k < i ==> ws@[k].0@ != name@,
        decreases ws@.len() - i,
    {
        if bytes_eq(ws[i].0.as_slice(), name) {
            return Some(i);
        }
        i = i + 1;
    }
    None
}

impl Linker {
    /// Whether the link map can be assembled: the working set's names are
    /// unique, the search order names no object twice, and every object it
    /// names is in the working set.
    pub fn can_assemble(&self) -> (r: bool)
        ensures
            r == (ws_keys_unique(self.working_set@) && no_dups(strs_view(self.link_map_order@))
                && forall|k: int|
                0 <= k < self.link_map_order@.len() ==> ws_has(
                    self.working_set@,
                    #[trigger] self.link_map_order@[k]@,
                )),
    {
        let ghost ws = self.working_set@;
        let n = self.working_set.len();
        let mut i: usize = 0;
        while i < n
            invariant
                ws == self.working_set@,
                n == ws.len(),
                i <= n,
                forall|a: int, b: int|
                    0 <= a < b < n && a < i ==> (#[trigger] ws[a]).0@ != (#[trigger] ws[b]).0@,
            decreases n - i,
        {
            let mut j: usize = i + 1;
            while j < n
                invariant
                    ws == self.working_set@,
                    n == ws.len(),
                    i < n,
                    i + 1 <= j <= n,
                    forall|a: int, b: int|
                        0 <= a < b < n && a < i ==> (#[trigger] ws[a]).0@ != (#[trigger] ws[b]).0@,
                    forall|b: int| i < b < j ==> ws[i as int].0@ != (#[trigger] ws[b]).0@,
                decreases n - j,
            {
                if bytes_eq(self.working_set[i].0.as_slice(), self.working_set[j].0.as_slice()) {
                    assert(ws[i as int].0@ == ws[j as int].0@);
                    assert(!ws_keys_unique(ws));
                    return false;
                }
                j = j + 1;
            }
            i = i + 1;
        }
        let m = self.link_map_order.len();
        let ghost o = strs_view(self.link_map_order@);
        let mut i: usize = 0;
        while i < m
            invariant
                ws == self.working_set@,
                o == strs_view(self.link_map_order@),
                m == o.len(),
                i <= m,
                forall|a: int, b: int| 0 <= a < b < m && a < i ==> o[a] != o[b],
                forall|k: int| 0 <= k < i ==> ws_has(ws, #[trigger] o[k]),
            decreases m - i,
        {
            let mut j: usize = i + 1;
            while j < m
                invariant
                    o == strs_view(self.link_map_order@),
                    m == o.len(),
                    i < m,
                    i + 1 <= j <= m,
                    forall|a: int, b: int| 0 <= a < b < m && a < i ==> o[a] != o[b],
                    forall|b: int| i < b < j ==> o[i as int] != o[b],
                decreases m - j,
            {
                if bytes_eq(self.link_map_order[i].as_slice(), self.link_map_order[j].as_slice()) {
                    assert(o[i as int] == o[j as int]);
                    assert(!no_dups(o));
                    return false;
                }
                j = j + 1;
            }
            let loaded = self.is_loaded(self.link_map_order[i].as_slice());
            assert(loaded == ws_has(ws, o[i as int]));
            if !loaded {
                assert(!ws_has(self.working_set@, self.link_map_order@[i as int]@));
                return false;
            }
            i = i + 1;
        }
        assert forall|k: int| 0 <= k < self.link_map_order@.len() implies ws_has(
            self.working_set@,
            #[trigger] self.link_map_order@[k]@,
        ) by {
            assert(ws_has(ws, o[k]));
        }
        true
    }
}

impl Linker {
    /// Builds the link map: the executable's image first, then each object
    /// of the working set in the search order, each taken out of the working
    /// set.
    pub fn assemble_link_map(&mut self, image: SharedObject)
        requires
            ws_keys_unique(old(self).working_set@),
            no_dups(strs_view(old(self).link_map_order@)),
            forall|k: int|
                0 <= k < old(self).link_map_order@.len() ==> ws_has(
                    old(self).working_set@,
                    #[trigger] old(self).link_map_order@[k]@,
                ),
        ensures
            final(self).link_map@ == old(self).link_map@.push(image) + ws_in_order(
                old(self).working_set@,
                strs_view(old(self).link_map_order@),
            ),
            ws_keys_unique(final(self).working_set@),
            forall|name: Seq<u8>|
                #[trigger] ws_has(final(self).working_set@, name) <==> (ws_has(
                    old(self).working_set@,
                    name,
                ) && !strs_view(old(self).link_map_order@).contains(name)),
            final(self).link_map_order == old(self).link_map_order,
            final(self).config == old(self).config,
            final(self).base == old(self).base,
            final(self).load_bias == old(self).load_bias,
    {
        let ghost ws0 = self.working_set@;
        let ghost order = strs_view(self.link_map_order@);
        let ghost lm0 = self.link_map@.push(image);
        self.link_map.push(image);
        let mut k: usize = 0;
        while k < self.link_map_order.len()
            invariant
                k <= order.len(),
                order == strs_view(self.link_map_order@),
                no_dups(order),
                ws_keys_unique(self.working_set@),
                self.link_map@ == lm0 + ws_in_order(ws0, order.subrange(0, k as int)),
                forall|j: int| k <= j < order.len() ==> ws_has(self.working_set@, #[trigger] order[j]),
                forall|name: Seq<u8>|
                    #[trigger] ws_has(self.working_set@, name) <==> (ws_has(ws0, name)
                        && !order.subrange(0, k as int).contains(name)),
                forall|name: Seq<u8>|
                    ws_has(self.working_set@, name) ==> #[trigger] ws_get(self.working_set@, name)
                        == ws_get(ws0, name),
                self.link_map_order == old(self).link_map_order,
                self.config == old(self).config,
                self.base == old(self).base,
                self.load_bias == old(self).load_bias,
            decreases order.len() - k,
        {
            assert(order[k as int] == self.link_map_order@[k as int]@);
            assert(ws_has(self.working_set@, order[k as int]));
            let found = ws_index(&self.working_set, self.link_map_order[k].as_slice());
            let i = match found {
                Some(i) => i,
                None => {
                    assert(false);
                    0
                },
            };
            let ghost ws = self.working_set@;
            let ghost name = order[k as int];
            proof {
                lemma_ws_get(ws, i as int);
                lemma_ws_remove(ws, i as int);
            }
            let entry = self.working_set.remove(i);
            let so = entry.1;
            let ghost lm = self.link_map@;
            self.link_map.push(so);
            proof {
                assert(so == ws_get(ws0, name));
                assert(ws_in_order(ws0, order.subrange(0, k + 1)) =~= ws_in_order(
                    ws0,
                    order.subrange(0, k as int),
                ).push(so));
                assert(order.subrange(0, k + 1) =~= order.subrange(0, k as int).push(name));
                assert forall|j: int| k + 1 <= j < order.len() implies ws_has(
                    self.working_set@,
                    #[trigger] order[j],
                ) by {
                    assert(order[j] != name);
                }
                assert forall|nm: Seq<u8>|
                    #[trigger] ws_has(self.working_set@, nm) <==> (ws_has(ws0, nm)
                        && !order.subrange(0, k + 1).contains(nm)) by {
                    assert(ws_has(ws, nm) <==> (ws_has(ws0, nm) && !order.subrange(
                        0,
                        k as int,
                    ).contains(nm)));
                    assert(ws_has(self.working_set@, nm) <==> (ws_has(ws, nm) && nm != name));
                    assert(order.subrange(0, k + 1)[k as int] == name);
                    if order.subrange(0, k + 1).contains(nm) && !order.subrange(0, k as int).contains(nm) {
                        let w = choose|w: int| 0 <= w < k + 1 && #[trigger] order.subrange(0, k + 1)[w] == nm;
                        assert(w == k);
                    }
                    if order.subrange(0, k as int).contains(nm) {
                        let w = choose|w: int| 0 <= w < k && #[trigger] order.subrange(0, k as int)[w] == nm;
                        assert(order.subrange(0, k + 1)[w] == nm);
                    }
                }
            }
            k = k + 1;
        }
        assert(order.subrange(0, order.len() as int) =~= order);
    }
}

/// `s` in reverse order.
pub open spec fn reversed(s: Seq<Seq<u8>>) -> Seq<Seq<u8>> {
    Seq::new(s.len(), |i: int| s[s.len() - 1 - i])
}

/// Puts the libraries `libs` on the stack `pending` of names still to load,
/// so that they come off it in the order of `libs`, before anything that was
/// on it: loading goes depth first.
pub fn schedule(pending: &mut Vec<Vec<u8>>, libs: &Vec<Vec<u8>>)
    ensures
        strs_view(final(pending)@) == strs_view(old(pending)@) + reversed(strs_view(libs@)),
{
    let ghost start = strs_view(pending@);
    let n = libs.len();
    let mut i: usize = n;
    while i > 0
        invariant
            n == libs@.len(),
            i <= n,
            strs_view(pending@) == start + reversed(strs_view(libs@)).subrange(0, (n - i) as int),
        decreases i,
    {
        i = i - 1;
        push_name(pending, libs[i].as_slice());
        proof {
            let r = reversed(strs_view(libs@));
            assert(r.subrange(0, (n - i) as int) =~= r.subrange(0, (n - i - 1) as int).push(
                libs@[i as int]@,
            ));
        }
    }
    assert(reversed(strs_view(libs@)).subrange(0, n as int) =~= reversed(strs_view(libs@)));
}

impl Linker {
    /// Takes the next library to load off the top of the stack `pending`
    /// (its last name), dropping the names above it that are loaded
    /// already; `None` when every name on the stack is loaded, which empties
    /// it.
    pub fn next_to_load(&self, pending: &mut Vec<Vec<u8>>) -> (r: Option<Vec<u8>>)
        ensures
            ({
                let p = strs_view(old(pending)@);
                let k = final(pending)@.len() as int;
                &&& strs_view(final(pending)@) == p.subrange(0, k)
                &&& forall|j: int| k < j < p.len() ==> ws_has(self.working_set@, #[trigger] p[j])
                &&& match r {
                    Some(name) => k < p.len() && name@ == p[k] && !ws_has(self.working_set@, p[k]),
                    None => k == 0 && (p.len() == 0 || ws_has(self.working_set@, p[0])),
                }
            }),
    {
        let ghost p = strs_view(pending@);
        while pending.len() > 0
            invariant
                p == strs_view(old(pending)@),
                pending@.len() <= p.len(),
                strs_view(pending@) == p.subrange(0, pending@.len() as int),
                forall|j: int|
                    pending@.len() < j < p.len() ==> ws_has(self.working_set@, #[trigger] p[j]),
                pending@.len() < p.len() ==> ws_has(self.working_set@, p[pending@.len() as int]),
            decreases pending@.len(),
        {
            let ghost before = pending@;
            let name = match pending.pop() {
                Some(n) => n,
                None => {
                    assert(false);
                    Vec::new()
                },
            };
            proof {
                assert(pending@ =~= before.drop_last());
                assert(name@ == p[pending@.len() as int]) by {
                    assert(strs_view(before)[pending@.len() as int] == before[pending@.len() as int]@);
                }
                assert(strs_view(pending@) =~= p.subrange(0, pending@.len() as int));
            }
            if !self.is_loaded(name.as_slice()) {
                return Some(name);
            }
        }
        None
    }
}

/// Every library that a loaded object of `ws` needs is loaded or still on
/// the stack `pending` of names to load.
pub open spec fn pending_covers(ws: Seq<(Vec<u8>, SharedObject)>, pending: Seq<Seq<u8>>) -> bool {
    forall|i: int, k: int|
        0 <= i < ws.len() && 0 <= k < ws[i].1@.libs.len() ==> ws_has(ws, #[trigger] ws[i].1@.libs[k])
            || pending.contains(ws[i].1@.libs[k])
}

/// One step of loading keeps every needed library loaded or pending: the
/// names `next_to_load` drops from the stack are loaded, the name it hands
/// out (`pending[k]`) is loaded as `entry`, and `schedule` puts the
/// libraries `entry` needs on the stack.
pub proof fn lemma_load_step_keeps_covered(
    ws: Seq<(Vec<u8>, SharedObject)>,
    pending: Seq<Seq<u8>>,
    k: int,
    entry: (Vec<u8>, SharedObject),
)
    requires
        pending_covers(ws, pending),
        0 <= k < pending.len(),
        forall|j: int| k < j < pending.len() ==> ws_has(ws, #[trigger] pending[j]),
        entry.0@ == pending[k],
    ensures
        pending_covers(
            ws.push(entry),
            pending.subrange(0, k) + reversed(entry.1@.libs),
        ),
{
    let ws2 = ws.push(entry);
    let p2 = pending.subrange(0, k) + reversed(entry.1@.libs);
    assert(ws2[ws.len() as int] == entry);
    assert(ws_has(ws2, pending[k]));
    assert forall|i: int, m: int|
        0 <= i < ws2.len() && 0 <= m < ws2[i].1@.libs.len() implies ws_has(
        ws2,
        #[trigger] ws2[i].1@.libs[m],
    ) || p2.contains(ws2[i].1@.libs[m]) by {
        let lib = ws2[i].1@.libs[m];
        if i < ws.len() {
            assert(ws2[i] == ws[i]);
            assert(ws[i].1@.libs[m] == lib);
            if ws_has(ws, lib) {
                let w = choose|w: int| 0 <= w < ws.len() && (#[trigger] ws[w]).0@ == lib;
                assert(ws2[w] == ws[w]);
            } else {
                assert(pending.contains(lib));
                let j = choose|j: int| 0 <= j < pending.len() && pending[j] == lib;
                if j < k {
                    assert(p2[j] == lib);
                } else if j > k {
                    assert(ws_has(ws, pending[j]));
                }
            }
        } else {
            let libs = entry.1@.libs;
            let n = libs.len();
            assert(reversed(libs)[n - 1 - m] == libs[m]);
            assert(p2[k + (n - 1 - m)] == lib);
        }
    }
}

/// When the stack of names to load holds only loaded names, which is when
/// `next_to_load` answers `None`, every library a loaded object needs is
/// loaded: the loaded objects are closed under their needed libraries.
pub proof fn lemma_loading_done(ws: Seq<(Vec<u8>, SharedObject)>, pending: Seq<Seq<u8>>)
    requires
        pending_covers(ws, pending),
        forall|j: int| 0 <= j < pending.len() ==> ws_has(ws, #[trigger] pending[j]),
    ensures
        forall|i: int, m: int|
            0 <= i < ws.len() && 0 <= m < ws[i].1@.libs.len() ==> ws_has(
                ws,
                #[trigger] ws[i].1@.libs[m],
            ),
{
    assert forall|i: int, m: int| 0 <= i < ws.len() && 0 <= m < ws[i].1@.libs.len() implies ws_has(
        ws,
        #[trigger] ws[i].1@.libs[m],
    ) by {
        if !ws_has(ws, ws[i].1@.libs[m]) {
            let j = choose|j: int| 0 <= j < pending.len() && pending[j] == ws[i].1@.libs[m];
            assert(ws_has(ws, pending[j]));
        }
    }
}

/// The linker's loading state, as values: the working set, the search
/// order, and the stack of names still to load.
pub ghost struct LoadState {
    pub ws: Seq<(Vec<u8>, SharedObject)>,
    pub order: Seq<Seq<u8>>,
    pub pending: Seq<Seq<u8>>,
}

/// One loading step may go from `st` with `entry` loaded as `pending[k]`:
/// `next_to_load` stopped at `k`, having dropped only loaded names above it,
/// and `pending[k]` is not loaded.
pub open spec fn step_ok(st: LoadState, k: int, entry: (Vec<u8>, SharedObject)) -> bool {
    &&& 0 <= k < st.pending.len()
    &&& forall|j: int| k < j < st.pending.len() ==> ws_has(st.ws, #[trigger] st.pending[j])
    &&& entry.0@ == st.pending[k]
    &&& !ws_has(st.ws, st.pending[k])
}

/// The state after that step: `next_to_load` cut the stack at `k`,
/// `add_loaded` recorded `entry` and appended its needed libraries to the
/// search order, and `schedule` put them on the stack.
pub open spec fn step(st: LoadState, k: int, entry: (Vec<u8>, SharedObject)) -> LoadState {
    LoadState {
        ws: st.ws.push(entry),
        order: append_new(st.order, entry.1@.libs),
        pending: st.pending.subrange(0, k) + reversed(entry.1@.libs),
    }
}

/// The state after the steps `steps`, each the place `next_to_load` stopped
/// at and the object loaded there, taken in order from `st`.
pub open spec fn run(st: LoadState, steps: Seq<(int, (Vec<u8>, SharedObject))>) -> LoadState
    decreases steps.len(),
{
    if steps.len() == 0 {
        st
    } else {
        let prev = run(st, steps.drop_last());
        step(prev, steps.last().0, steps.last().1)
    }
}

/// Every step of `steps`, taken from `st`, is one that loading can take.
pub open spec fn run_ok(st: LoadState, steps: Seq<(int, (Vec<u8>, SharedObject))>) -> bool
    decreases steps.len(),
{
    if steps.len() == 0 {
        true
    } else {
        run_ok(st, steps.drop_last()) && step_ok(
            run(st, steps.drop_last()),
            steps.last().0,
            steps.last().1,
        )
    }
}

/// What loading keeps: names are loaded once, the search order has no
/// duplicates, every name still to load is in the search order, and every
/// library a loaded object needs is loaded or still to load.
pub open spec fn load_inv(st: LoadState) -> bool {
    &&& ws_keys_unique(st.ws)
    &&& no_dups(st.order)
    &&& forall|j: int| 0 <= j < st.pending.len() ==> st.order.contains(#[trigger] st.pending[j])
    &&& pending_covers(st.ws, st.pending)
}

proof fn lemma_prefix_contains(order: Seq<Seq<u8>>, next: Seq<Seq<u8>>, x: Seq<u8>)
    requires
        next.len() >= order.len(),
        next.subrange(0, order.len() as int) == order,
        order.contains(x),
    ensures
        next.contains(x),
{
    let w = choose|w: int| 0 <= w < order.len() && order[w] == x;
    assert(next.subrange(0, order.len() as int)[w] == next[w]);
}

proof fn lemma_step(st: LoadState, k: int, entry: (Vec<u8>, SharedObject))
    requires
        load_inv(st),
        step_ok(st, k, entry),
    ensures
        load_inv(step(st, k, entry)),
        step(st, k, entry).order.len() >= st.order.len(),
        step(st, k, entry).order.subrange(0, st.order.len() as int) == st.order,
        step(st, k, entry).order.contains(entry.0@),
{
    let nx = step(st, k, entry);
    let libs = entry.1@.libs;
    lemma_append_new(st.order, libs);
    lemma_load_step_keeps_covered(st.ws, st.pending, k, entry);
    assert forall|a: int, b: int| 0 <= a < b < nx.ws.len() implies (#[trigger] nx.ws[a]).0@ != (
    #[trigger] nx.ws[b]).0@ by {
        if b == st.ws.len() {
            assert(nx.ws[a] == st.ws[a]);
            assert(nx.ws[b] == entry);
            if st.ws[a].0@ == entry.0@ {
                assert(ws_has(st.ws, st.pending[k]));
            }
        } else {
            assert(nx.ws[a] == st.ws[a]);
            assert(nx.ws[b] == st.ws[b]);
        }
    }
    assert(st.order.contains(st.pending[k]));
    lemma_prefix_contains(st.order, nx.order, entry.0@);
    assert forall|j: int| 0 <= j < nx.pending.len() implies nx.order.contains(
        #[trigger] nx.pending[j],
    ) by {
        if j < k {
            assert(nx.pending[j] == st.pending[j]);
            assert(st.order.contains(st.pending[j]));
            lemma_prefix_contains(st.order, nx.order, st.pending[j]);
        } else {
            let n = libs.len();
            let m = n - 1 - (j - k);
            assert(nx.pending[j] == reversed(libs)[j - k]);
            assert(reversed(libs)[j - k] == libs[m]);
            assert(nx.order.contains(libs[m]));
        }
    }
}

/// The law of a whole loading run: starting where the search order has no
/// duplicates and holds every name still to load, after any steps that
/// loading can take the search order still has no duplicates, keeps what
/// it held as a prefix, and holds every object loaded on the way; no name is
/// loaded twice; the objects loaded before stay first. When the run ends,
/// with every name left on the stack loaded (`next_to_load` answering
/// `None`), every library that a loaded object needs is loaded.
pub proof fn lemma_load_run(st: LoadState, steps: Seq<(int, (Vec<u8>, SharedObject))>)
    requires
        load_inv(st),
        run_ok(st, steps),
    ensures
        load_inv(run(st, steps)),
        run(st, steps).order.len() >= st.order.len(),
        run(st, steps).order.subrange(0, st.order.len() as int) == st.order,
        run(st, steps).ws.len() == st.ws.len() + steps.len(),
        run(st, steps).ws.subrange(0, st.ws.len() as int) == st.ws,
        forall|i: int|
            st.ws.len() <= i < run(st, steps).ws.len() ==> run(st, steps).order.contains(
                (#[trigger] run(st, steps).ws[i]).0@,
            ),
        (forall|j: int|
            0 <= j < run(st, steps).pending.len() ==> ws_has(
                run(st, steps).ws,
                #[trigger] run(st, steps).pending[j],
            )) ==> forall|i: int, m: int|
            0 <= i < run(st, steps).ws.len() && 0 <= m < run(st, steps).ws[i].1@.libs.len()
                ==> ws_has(run(st, steps).ws, #[trigger] run(st, steps).ws[i].1@.libs[m]),
    decreases steps.len(),
{
    let fin = run(st, steps);
    if steps.len() == 0 {
        assert(st.order.subrange(0, st.order.len() as int) =~= st.order);
        assert(st.ws.subrange(0, st.ws.len() as int) =~= st.ws);
    } else {
        let prev_steps = steps.drop_last();
        let prev = run(st, prev_steps);
        lemma_load_run(st, prev_steps);
        let (k, entry) = steps.last();
        lemma_step(prev, k, entry);
        assert(fin == step(prev, k, entry));
        assert(fin.order.subrange(0, st.order.len() as int) =~= st.order) by {
            assert forall|w: int| 0 <= w < st.order.len() implies fin.order[w] == st.order[w] by {
                assert(fin.order.subrange(0, prev.order.len() as int)[w] == prev.order[w]);
                assert(prev.order.subrange(0, st.order.len() as int)[w] == st.order[w]);
            }
        }
        assert(fin.ws.subrange(0, st.ws.len() as int) =~= st.ws) by {
            assert forall|w: int| 0 <= w < st.ws.len() implies fin.ws[w] == st.ws[w] by {
                assert(fin.ws[w] == prev.ws[w]);
                assert(prev.ws.subrange(0, st.ws.len() as int)[w] == st.ws[w]);
            }
        }
        assert forall|i: int| st.ws.len() <= i < fin.ws.len() implies fin.order.contains(
            (#[trigger] fin.ws[i]).0@,
        ) by {
            if i < prev.ws.len() {
                assert(fin.ws[i] == prev.ws[i]);
                lemma_prefix_contains(prev.order, fin.order, prev.ws[i].0@);
            } else {
                assert(fin.ws[i] == entry);
            }
        }
    }
    if forall|j: int| 0 <= j < fin.pending.len() ==> ws_has(fin.ws, #[trigger] fin.pending[j]) {
        lemma_loading_done(fin.ws, fin.pending);
    }
}
} // verus!
