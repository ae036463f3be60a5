//! The console: one line that tells who is on the network.
use crate::state::SharedState;
use vstd::prelude::*;

verus! {

/// The texts, one after the other, with `", "` between them.
pub open spec fn joined(names: Seq<Seq<char>>) -> Seq<char>
    decreases names.len(),
{
    if names.len() == 0 {
        seq![]
    } else if names.len() == 1 {
        names[0]
    } else {
        joined(names.drop_last()) + ", "@ + names.last()
    }
}

impl SharedState {
    /// The names of the participants, in the order of the table.
    pub open spec fn names(&self) -> Seq<Seq<char>> {
        self.peers.keys().map_values(
            |a: crate::addr::SocketAddr| self@.peers[a].username,
        )
    }

    /// The names of the participants, with `", "` between them.
    fn joined_names(&self) -> (r: String)
        requires
            self.peers.wf(),
        ensures
            r@ == joined(self.names()),
    {
        let mut out = String::new();
        let count: usize = self.peers.len();
        let mut i: usize = 0;
        assert(self.names().take(0) =~= Seq::<Seq<char>>::empty());
        while i < count
            invariant
                self.peers.wf(),
                count == self.peers.keys().len(),
                self.names().len() == count,
                i <= count,
                out@ == joined(self.names().take(i as int)),
            decreases count - i,
        {
            let peer = self.peers.value_at(i);
            proof {
                let next = self.names().take(i + 1);
                assert(next.drop_last() =~= self.names().take(i as int));
                assert(next.last() == peer.username@);
            }
            if i > 0 {
                out.append(", ");
            }
            out.append(peer.username.as_str());
            i = i + 1;
            assert(out@ =~= joined(self.names().take(i as int)));
        }
        assert(self.names().take(i as int) =~= self.names());
        out
    }

    /// The line that tells who is on the network. The spaces at its end cover
    /// what an earlier, longer line left behind.
    pub fn presence_line(&self) -> (r: String)
        requires
            self.peers.wf(),
        ensures
            r@ == (if self@.peers.dom().len() == 0 {
                "Участников не обнаружено...                              "@
            } else {
                "В сети: "@ + joined(self.names()) + "                              "@
            }),
    {
        proof {
            assert(self@.peers.dom() =~= self.peers@.dom());
        }
        if self.peers.len() == 0 {
            String::from_str("Участников не обнаружено...                              ")
        } else {
            let mut line = String::from_str("В сети: ");
            line.append(self.joined_names().as_str());
            line.append("                              ");
            line
        }
    }
}

/// One name reads as itself, and behind others a name stands after a comma and a
/// space. Nothing is listed where there is nobody.
pub proof fn names_are_listed_with_commas(names: Seq<Seq<char>>, name: Seq<char>)
    ensures
        joined(Seq::<Seq<char>>::empty()).len() == 0,
        names.len() == 0 ==> joined(names.push(name)) == name,
        names.len() > 0 ==> joined(names.push(name)) == joined(names) + seq![',', ' '] + name,
{
    reveal_strlit(", ");
    assert(names.push(name).drop_last() =~= names);
    assert(", "@ =~= seq![',', ' ']);
}

/// The list of two groups of names is the lists of both with a comma and a space
/// between them.
pub proof fn lists_of_names_are_joined(a: Seq<Seq<char>>, b: Seq<Seq<char>>)
    requires
        a.len() > 0,
        b.len() > 0,
    ensures
        joined(a + b) == joined(a) + seq![',', ' '] + joined(b),
    decreases b.len(),
{
    let front = b.drop_last();
    assert(a + b =~= (a + front).push(b.last()));
    assert(b =~= front.push(b.last()));
    names_are_listed_with_commas(a + front, b.last());
    names_are_listed_with_commas(front, b.last());
    if front.len() == 0 {
        assert(a + front =~= a);
        assert(joined(a + b) =~= joined(a) + seq![',', ' '] + joined(b));
    } else {
        lists_of_names_are_joined(a, front);
        assert(joined(a + b) =~= joined(a) + seq![',', ' '] + joined(b));
    }
}

/// Everyone in the table is named once, by the name that the table holds.
pub proof fn everyone_is_named_once(state: &SharedState, i: int)
    requires
        state.peers.wf(),
    ensures
        state.names().len() == state.peers@.dom().len(),
        0 <= i < state.names().len() ==> state.peers@.dom().contains(state.peers.keys()[i])
            && state.names()[i] == state.peers@[state.peers.keys()[i]].username@,
{
    state.peers.lemma_keys();
    state.peers.keys().unique_seq_to_set();
    if 0 <= i < state.names().len() {
        assert(state.peers.keys().to_set().contains(state.peers.keys()[i]));
    }
}

} // verus!
