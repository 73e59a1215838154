//! Named definitions held in memory, in nested scopes.
//!
//! A definition lives either in the root scope or in one layer of a stack of
//! scopes. There is always at least one layer. A name is looked up in the
//! layers from the first to the last and then in the root; a definition is
//! written to the last layer and deleted from the last layer that has it.
use crate::storage::bytemap::ByteMap;
use vstd::prelude::*;
use vstd::utf8::encode_utf8;

verus! {

/// Why the environment could not do what was asked.
#[derive(Clone, Copy, Debug, PartialEq, Eq)]
pub enum EnvError {
    /// All storage identifiers have been handed out.
    IdsExhausted,
}

/// Definitions in memory: a root scope, a stack of scopes, and the last
/// storage identifier handed out.
pub struct MemoryEnv {
    root: ByteMap,
    stack: Vec<ByteMap>,
    max_storage_id: u32,
}

/// The maps that a stack of scopes stands for, first layer first.
pub open spec fn scopes(stack: Seq<ByteMap>) -> Seq<Map<Seq<u8>, Seq<u8>>> {
    stack.map_values(|m: ByteMap| m@)
}

/// What `key` resolves to: its definition in the first layer that has one,
/// else its definition in the root, else nothing.
pub open spec fn lookup(
    layers: Seq<Map<Seq<u8>, Seq<u8>>>,
    root: Map<Seq<u8>, Seq<u8>>,
    key: Seq<u8>,
) -> Option<Seq<u8>>
    decreases layers.len(),
{
    if layers.len() == 0 {
        if root.contains_key(key) {
            Some(root[key])
        } else {
            None
        }
    } else if layers[0].contains_key(key) {
        Some(layers[0][key])
    } else {
        lookup(layers.skip(1), root, key)
    }
}

/// The layers after `key` was deleted from the last layer that defines it.
pub open spec fn without_last_definition(
    layers: Seq<Map<Seq<u8>, Seq<u8>>>,
    key: Seq<u8>,
) -> Seq<Map<Seq<u8>, Seq<u8>>>
    decreases layers.len(),
{
    if layers.len() == 0 {
        layers
    } else if layers.last().contains_key(key) {
        layers.drop_last().push(layers.last().remove(key))
    } else {
        without_last_definition(layers.drop_last(), key).push(layers.last())
    }
}

/// The depth reported for a stack of `len` layers: the negated number of
/// layers, held at the smallest `i32` for a stack too deep to count.
pub open spec fn depth_of(len: nat) -> i32 {
    if len >= 0x8000_0000 {
        i32::MIN
    } else {
        (-(len as int)) as i32
    }
}

impl MemoryEnv {
    #[verifier::type_invariant]
    spec fn well_formed(&self) -> bool {
        self.stack@.len() >= 1
    }

    /// The definitions of the root scope.
    pub closed spec fn root(&self) -> Map<Seq<u8>, Seq<u8>> {
        self.root@
    }

    /// The definitions of the layers, first layer first.
    pub closed spec fn layers(&self) -> Seq<Map<Seq<u8>, Seq<u8>>> {
        scopes(self.stack@)
    }

    /// The last storage identifier handed out.
    pub closed spec fn max_id(&self) -> u32 {
        self.max_storage_id
    }

    /// Hands out the next storage identifier.
    pub fn get_next_storage_id(&mut self, _in_root: bool) -> (r: Result<u32, EnvError>)
        ensures
            final(self).root() == old(self).root(),
            final(self).layers() == old(self).layers(),
            match r {
                Ok(id) => old(self).max_id() < u32::MAX && id == old(self).max_id() + 1
                    && final(self).max_id() == id,
                Err(err) => old(self).max_id() == u32::MAX && err == EnvError::IdsExhausted
                    && final(self).max_id() == old(self).max_id(),
            },
    {
        proof {
            use_type_invariant(&*self);
        }
        if self.max_storage_id == u32::MAX {
            return Err(EnvError::IdsExhausted);
        }
        self.max_storage_id = self.max_storage_id + 1;
        Ok(self.max_storage_id)
    }

    /// The depth of the stack: the negated number of layers.
    pub fn get_stack_depth(&self) -> (d: i32)
        ensures
            d == depth_of(self.layers().len()),
            self.layers().len() >= 1,
    {
        proof {
            use_type_invariant(self);
        }
        let n = self.stack.len();
        if n >= 0x8000_0000 {
            i32::MIN
        } else {
            -(n as i32)
        }
    }

    /// Opens a new, empty layer on top of the stack.
    pub fn push_env(&mut self)
        ensures
            final(self).root() == old(self).root(),
            final(self).max_id() == old(self).max_id(),
            final(self).layers() == old(self).layers().push(Map::empty()),
    {
        proof {
            use_type_invariant(&*self);
        }
        let mut stack: Vec<ByteMap> = Vec::new();
        stack.push(ByteMap::new());
        std::mem::swap(&mut stack, &mut self.stack);
        let ghost before = scopes(stack@);
        stack.push(ByteMap::new());
        assert(scopes(stack@) =~= before.push(Map::empty()));
        self.stack = stack;
    }

    /// Closes the top layer with all its definitions. The last remaining
    /// layer is never closed.
    pub fn pop_env(&mut self) -> (r: Result<(), EnvError>)
        ensures
            r is Ok,
            final(self).root() == old(self).root(),
            final(self).max_id() == old(self).max_id(),
            final(self).layers() == (if old(self).layers().len() > 1 {
                old(self).layers().drop_last()
            } else {
                old(self).layers()
            }),
    {
        proof {
            use_type_invariant(&*self);
        }
        if self.stack.len() > 1 {
            let mut stack: Vec<ByteMap> = Vec::new();
            stack.push(ByteMap::new());
            std::mem::swap(&mut stack, &mut self.stack);
            let ghost before = scopes(stack@);
            stack.pop();
            assert(scopes(stack@) =~= before.drop_last());
            self.stack = stack;
        }
        Ok(())
    }

    /// The definition that `name` resolves to, if any.
    pub fn resolve(&self, name: &str) -> (r: Result<Option<Vec<u8>>, EnvError>)
        ensures
            r matches Ok(found) && (match lookup(self.layers(), self.root(), encode_utf8(name@)) {
                Some(data) => found matches Some(v) && v@ == data,
                None => found is None,
            }),
    {
        let key = name.as_bytes();
        let ghost layers = scopes(self.stack@);
        let mut i: usize = 0;
        assert(layers.skip(0) =~= layers);
        while i < self.stack.len()
            invariant
                i <= self.stack@.len(),
                layers == scopes(self.stack@),
                key@ == encode_utf8(name@),
                lookup(layers, self.root@, key@) == lookup(layers.skip(i as int), self.root@, key@),
            decreases self.stack@.len() - i,
        {
            assert(layers.skip(i as int)[0] == self.stack@[i as int]@);
            assert(layers.skip(i as int).skip(1) =~= layers.skip(i + 1));
            match self.stack[i].get(key) {
                Some(res) => {
                    return Ok(Some(res));
                },
                None => {},
            }
            i += 1;
        }
        assert(layers.skip(i as int).len() == 0);
        Ok(self.root.get(key))
    }

    /// Deletes the definition of `name`: from the root, or from the last
    /// layer that has one.
    pub fn delete_defined(&mut self, name: &str, in_root: bool) -> (r: Result<(), EnvError>)
        ensures
            r is Ok,
            final(self).max_id() == old(self).max_id(),
            in_root ==> final(self).layers() == old(self).layers(),
            in_root ==> final(self).root() == old(self).root().remove(encode_utf8(name@)),
            !in_root ==> final(self).root() == old(self).root(),
            !in_root ==> final(self).layers() == without_last_definition(
                old(self).layers(),
                encode_utf8(name@),
            ),
    {
        proof {
            use_type_invariant(&*self);
        }
        let key = name.as_bytes();
        if in_root {
            let mut root = ByteMap::new();
            std::mem::swap(&mut root, &mut self.root);
            root.remove(key);
            self.root = root;
        } else {
            let mut stack: Vec<ByteMap> = Vec::new();
            stack.push(ByteMap::new());
            std::mem::swap(&mut stack, &mut self.stack);
            let ghost before = scopes(stack@);
            let mut i: usize = stack.len();
            assert(before.take(i as int) =~= before);
            assert(before.skip(i as int) =~= Seq::empty());
            assert(without_last_definition(before, key@) + Seq::empty()
                =~= without_last_definition(before, key@));
            let mut found = false;
            while i > 0 && !found
                invariant
                    i <= stack@.len(),
                    stack@.len() == before.len(),
                    before.len() >= 1,
                    key@ == encode_utf8(name@),
                    !found ==> scopes(stack@) == before,
                    !found ==> without_last_definition(before, key@) == without_last_definition(
                        before.take(i as int),
                        key@,
                    ) + before.skip(i as int),
                    found ==> scopes(stack@) == without_last_definition(before, key@),
                decreases i + (if found { 0int } else { 1int }),
            {
                let ghost upper = before.take(i as int);
                assert(upper.last() == before[i - 1]);
                assert(upper.drop_last() =~= before.take(i - 1));
                assert(scopes(stack@)[i - 1] == stack@[i - 1]@);
                if stack[i - 1].contains_key(key) {
                    let mut layer = stack.remove(i - 1);
                    let ghost rest = scopes(stack@);
                    layer.remove(key);
                    stack.insert(i - 1, layer);
                    proof {
                        assert(rest =~= before.remove(i - 1));
                        assert(scopes(stack@) =~= before.take(i - 1).push(
                            before[i - 1].remove(key@),
                        ) + before.skip(i as int));
                    }
                    found = true;
                } else {
                    proof {
                        assert(without_last_definition(before.take(i - 1), key@).push(
                            before[i - 1],
                        ) + before.skip(i as int) =~= without_last_definition(
                            before.take(i - 1),
                            key@,
                        ) + before.skip(i - 1));
                    }
                    i -= 1;
                }
            }
            proof {
                if !found {
                    assert(before.take(0) =~= Seq::empty());
                    assert(before.skip(0) =~= before);
                    assert(without_last_definition(before.take(0), key@) + before =~= before);
                }
            }
            self.stack = stack;
        }
        Ok(())
    }

    /// Defines `name` as `data`: in the root, or in the top layer.
    pub fn define_data(&mut self, name: &str, data: Vec<u8>, in_root: bool) -> (r: Result<
        (),
        EnvError,
    >)
        ensures
            r is Ok,
            final(self).max_id() == old(self).max_id(),
            in_root ==> final(self).layers() == old(self).layers(),
            in_root ==> final(self).root() == old(self).root().insert(encode_utf8(name@), data@),
            !in_root ==> final(self).root() == old(self).root(),
            !in_root ==> final(self).layers() == old(self).layers().drop_last().push(
                old(self).layers().last().insert(encode_utf8(name@), data@),
            ),
    {
        proof {
            use_type_invariant(&*self);
        }
        let key = name.as_bytes();
        if in_root {
            let mut root = ByteMap::new();
            std::mem::swap(&mut root, &mut self.root);
            root.insert(key, data.as_slice());
            self.root = root;
        } else {
            let mut stack: Vec<ByteMap> = Vec::new();
            stack.push(ByteMap::new());
            std::mem::swap(&mut stack, &mut self.stack);
            let ghost before = scopes(stack@);
            let mut last = stack.pop().unwrap();
            let ghost rest = scopes(stack@);
            last.insert(key, data.as_slice());
            stack.push(last);
            proof {
                assert(rest =~= before.drop_last());
                assert(scopes(stack@) =~= before.drop_last().push(
                    before.last().insert(key@, data@),
                ));
            }
            self.stack = stack;
        }
        Ok(())
    }
}

impl Default for MemoryEnv {
    /// An environment with an empty root and one empty layer.
    fn default() -> (env: MemoryEnv)
        ensures
            env.root() == Map::<Seq<u8>, Seq<u8>>::empty(),
            env.layers() == seq![Map::<Seq<u8>, Seq<u8>>::empty()],
            env.max_id() == 0,
    {
        let mut stack: Vec<ByteMap> = Vec::new();
        stack.push(ByteMap::new());
        assert(scopes(stack@) =~= seq![Map::<Seq<u8>, Seq<u8>>::empty()]);
        MemoryEnv { root: ByteMap::new(), stack, max_storage_id: 0 }
    }
}

} // verus!
