use crate::feed::{Item, ItemV};
use crate::SyncError;
use vstd::prelude::*;
use vstd::string::StringExecFns;

verus! {

/// The message for one item: feed name, title, description, link and
/// publish date in the fixed status layout. It begins with `[` and ends
/// with `)`, so it carries no leading or trailing whitespace to strip.
pub open spec fn message_text(name: Seq<char>, it: ItemV) -> Seq<char> {
    "["@ + name + "] "@ + it.title + "\n"@ + it.description + " #WSJ\n"@ + it.link + "\n("@
        + it.pub_date_text + ")"@
}

/// The form-encoded request body that publishes one item.
pub open spec fn status_body(name: Seq<char>, it: ItemV) -> Seq<char> {
    "status="@ + message_text(name, it) + "&visibility=public"@
}

/// Renders the form-encoded status request body for one item of the
/// named feed.
pub fn format_status(name: &String, it: &Item) -> (r: String)
    ensures
        r@ == status_body(name@, it@),
{
    let mut m = String::from_str("[");
    m.append(name.as_str());
    m.append("] ");
    m.append(it.title.as_str());
    m.append("\n");
    m.append(it.description.as_str());
    m.append(" #WSJ\n");
    m.append(it.link.as_str());
    m.append("\n(");
    m.append(it.pub_date_text.as_str());
    m.append(")");
    proof {
        assert(m@ =~= message_text(name@, it@));
    }
    let mut r = String::from_str("status=");
    r.append(m.as_str());
    r.append("&visibility=public");
    proof {
        assert(r@ =~= status_body(name@, it@));
    }
    r
}

/// How many of `n` ordered sends happen when the i-th attempted send
/// succeeds exactly when `ok[i]`: all `n` when none fails, otherwise the
/// index of the first failure.
pub open spec fn sent_count(ok: Seq<bool>, n: int) -> int
    decreases n,
{
    if n <= 0 {
        0
    } else {
        let k = sent_count(ok, n - 1);
        if k < n - 1 {
            k
        } else if ok[n - 1] {
            n
        } else {
            n - 1
        }
    }
}

/// Sends one status per item, oldest first, each send independent; a
/// failed send aborts the remaining sends and surfaces a publish error.
/// `send_ok[i]` is the outcome the posting transport gives the i-th
/// attempted send. Returns the request bodies that were delivered, in
/// order, and the outcome; an empty item list sends nothing.
#[verifier::loop_isolation(false)]
pub fn publish(name: &String, items: &Vec<Item>, send_ok: &Vec<bool>) -> (r: (
    Vec<String>,
    Result<(), SyncError>,
))
    requires
        send_ok@.len() >= items@.len(),
    ensures
        ({
            let k = sent_count(send_ok@, items@.len() as int);
            &&& r.0@.len() == k
            &&& forall|i: int|
                0 <= i < k ==> #[trigger] r.0@[i]@ == status_body(name@, items@[i]@)
            &&& (r.1 is Ok <==> k == items@.len())
            &&& (r.1 matches Err(e) ==> e == SyncError::Publish)
        }),
{
    let n = items.len();
    let mut out: Vec<String> = Vec::new();
    let mut i: usize = 0;
    while i < n
        invariant
            i <= n,
            sent_count(send_ok@, i as int) == i,
            out@.len() == i,
            forall|j: int| 0 <= j < i ==> #[trigger] out@[j]@ == status_body(name@, items@[j]@),
        decreases n - i,
    {
        let body = format_status(name, &items[i]);
        if send_ok[i] {
            out.push(body);
        } else {
            proof {
                assert(sent_count(send_ok@, i as int + 1) == i);
                lemma_sent_count_mono(send_ok@, i as int + 1, n as int);
            }
            return (out, Err(SyncError::Publish));
        }
        i = i + 1;
    }
    (out, Ok(()))
}

/// Once a send has failed, later cutoffs stay at the failure index.
proof fn lemma_sent_count_mono(ok: Seq<bool>, m: int, n: int)
    requires
        0 < m <= n,
        sent_count(ok, m) < m,
    ensures
        sent_count(ok, n) == sent_count(ok, m),
    decreases n - m,
{
    if m < n {
        lemma_sent_count_mono(ok, m + 1, n);
    }
}

} // verus!
