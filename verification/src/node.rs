use vstd::prelude::*;

verus! {

/// What a file read gives: its bytes, or the error text.
pub type Content = Result<Vec<u8>, String>;

/// A file's content as a mathematical value.
pub open spec fn content_view(c: Content) -> Result<Seq<u8>, Seq<char>> {
    match c {
        Ok(bytes) => Ok(bytes@),
        Err(e) => Err(e@),
    }
}

/// A cached file: when it was last seen modified and what it held then.
///
/// Times are nanoseconds since the Unix epoch, negative before it.
pub struct Node {
    pub last_update: i128,
    pub content: Content,
}

/// A node as a mathematical value.
pub struct NodeView {
    pub last_update: i128,
    pub content: Result<Seq<u8>, Seq<char>>,
}

impl View for Node {
    type V = NodeView;

    open spec fn view(&self) -> NodeView {
        NodeView { last_update: self.last_update, content: content_view(self.content) }
    }
}

/// The node that stands for a file not read yet: seen at the epoch, with an error as content.
pub open spec fn unset_node() -> NodeView {
    NodeView { last_update: 0, content: Err("Still unset"@) }
}

/// An exact copy of a file's content.
pub(crate) fn copy_content(c: &Content) -> (r: Content)
    ensures
        content_view(r) == content_view(*c),
{
    match c {
        Ok(bytes) => {
            let copy = bytes.clone();
            assert(copy@ =~= bytes@);
            Ok(copy)
        },
        Err(e) => Err(e.clone()),
    }
}

impl Node {
    /// Whether the file, last modified at `modified`, changed since the node was filled;
    /// the error of the modification time is passed on.
    pub fn must_update(&self, modified: &Result<i128, String>) -> (r: Result<bool, String>)
        ensures
            r == match *modified {
                Ok(m) => Ok::<bool, String>(m > self.last_update),
                Err(e) => Err::<bool, String>(e),
            },
    {
        match modified {
            Ok(m) => Ok(*m > self.last_update),
            Err(e) => Err(e.clone()),
        }
    }

    /// Brings the node up to date: an error of the modification time becomes the content;
    /// a time later than the node's makes the node take that time and read the file anew;
    /// otherwise the node stays as it is.
    pub fn update<F>(&mut self, modified: Result<i128, String>, read_content: F) where
        F: FnOnce() -> Content,
        requires
            call_requires(read_content, ()),
        ensures
            match modified {
                Err(e) => final(self)@ == NodeView {
                    last_update: old(self).last_update,
                    content: Err(e@),
                },
                Ok(m) => if m > old(self).last_update {
                    final(self).last_update == m && call_ensures(
                        read_content,
                        (),
                        final(self).content,
                    )
                } else {
                    final(self)@ == old(self)@
                },
            },
    {
        match modified {
            Err(e) => {
                self.content = Err(e);
            },
            Ok(m) => {
                if m > self.last_update {
                    self.last_update = m;
                    self.content = read_content();
                }
            },
        }
    }

    /// An exact copy of the node.
    pub(crate) fn copy(&self) -> (r: Node)
        ensures
            r@ == self@,
    {
        Node { last_update: self.last_update, content: copy_content(&self.content) }
    }
}

impl Default for Node {
    fn default() -> (r: Node)
        ensures
            r@ == unset_node(),
    {
        Node { last_update: 0, content: Err("Still unset".to_owned()) }
    }
}

} // verus!
