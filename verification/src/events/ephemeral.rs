//! Events that are not kept.
use crate::dict::KeySet;
use crate::json::{text_list, Json, JsonValue};
use crate::util::mxid::MatrixId;
use vstd::prelude::*;

verus! {

/// `m.typing`
pub struct Typing {
    pub user_ids: KeySet<MatrixId>,
}

impl Default for Typing {
    fn default() -> (t: Self)
        ensures
            t@ == Set::<Seq<char>>::empty(),
    {
        Typing { user_ids: KeySet::new() }
    }
}

impl View for Typing {
    type V = Set<Seq<char>>;

    open spec fn view(&self) -> Set<Seq<char>> {
        self.user_ids@
    }
}

/// Whether a JSON value is an `m.typing` content that lists the users, each once, in some order.
pub open spec fn says_typing(value: Json, users: Set<Seq<char>>) -> bool {
    exists|order: Seq<Seq<char>>|
        order.no_duplicates() && order.to_set() == users && value
            == #[trigger] typing_json(order)
}

/// The `m.typing` content that lists the users in an order.
pub open spec fn typing_json(order: Seq<Seq<char>>) -> Json {
    crate::events::room::single("user_ids"@, text_list(order))
}

impl Typing {
    pub fn to_json(&self) -> (v: JsonValue)
        ensures
            says_typing(v@, self@),
    {
        let mut list = JsonValue::array();
        let ghost order = self.user_ids.listing();
        let n: usize = self.user_ids.len();
        assert(list@->Array_0 =~= text_list(order.take(0))->Array_0);
        for i in 0..n
            invariant
                n == order.len(),
                order == self.user_ids.listing(),
                list@ == text_list(order.take(i as int)),
        {
            list.push(JsonValue::text(self.user_ids.item(i).as_str()));
            assert(list@->Array_0 =~= text_list(order.take(i + 1))->Array_0);
        }
        assert(order.take(n as int) =~= order);
        let mut v = JsonValue::object();
        v.insert("user_ids", list);
        assert(v@ == typing_json(order));
        v
    }
}

} // verus!
