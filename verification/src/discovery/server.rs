use vstd::prelude::*;

use crate::{
    crypto::Digest,
    data::Table,
    discovery::{
        database::Database,
        frame::{acquired, Frame},
        request::{Request, Response},
    },
    view::{self, Install},
};

verus! {

broadcast use vstd::seq_lib::group_to_multiset_ensures;

/// The service that a request opens on a connection.
#[derive(Debug, Clone, Copy)]
pub enum Service {
    Publish(Install),
    LightSubscribe(usize),
    FullSubscribe,
}

/// Why a connection is closed by the server's rules (failures of the
/// connection itself are the transport's).
#[derive(Debug, Clone, Copy, PartialEq, Eq, Structural)]
pub enum ServeError {
    UnexpectedRequest,
    HeightOverflow,
    UpdateFailed,
}

/// The service opened by the first request on a connection: a publication, a
/// light subscription from a height that this machine can represent, or a
/// full subscription. A height beyond `usize::MAX` is refused, and so is a
/// keep-alive, which only makes sense within a subscription.
pub fn route(request: Request) -> (result: Result<Service, ServeError>)
    ensures
        match request {
            Request::Publish(install) => result matches Ok(Service::Publish(published))
                && published == install,
            Request::LightSubscribe(height) => if height <= usize::MAX {
                result matches Ok(Service::LightSubscribe(start)) && start == height
            } else {
                result == Err::<Service, ServeError>(ServeError::HeightOverflow)
            },
            Request::FullSubscribe => result matches Ok(Service::FullSubscribe),
            Request::KeepAlive => result == Err::<Service, ServeError>(ServeError::UnexpectedRequest),
        },
{
    match request {
        Request::Publish(install) => Ok(Service::Publish(install)),
        Request::LightSubscribe(height) => {
            if height <= usize::MAX as u64 {
                Ok(Service::LightSubscribe(height as usize))
            } else {
                Err(ServeError::HeightOverflow)
            }
        },
        Request::FullSubscribe => Ok(Service::FullSubscribe),
        Request::KeepAlive => Err(ServeError::UnexpectedRequest),
    }
}

/// The answer to a request received within a subscription: a keep-alive is
/// answered in kind, anything else closes the connection.
pub fn answer_within_subscription(request: Request) -> (result: Result<Response, ServeError>)
    ensures
        match request {
            Request::KeepAlive => result matches Ok(Response::KeepAlive),
            _ => result == Err::<Response, ServeError>(ServeError::UnexpectedRequest),
        },
{
    match request {
        Request::KeepAlive => Ok(Response::KeepAlive),
        _ => Err(ServeError::UnexpectedRequest),
    }
}

/// What a light subscriber at `height` is sent from `frame`, and the height it
/// is at afterwards: the installs that lead it to the top of the frame.
pub fn light_update(frame: &Frame, height: usize) -> (result: (Vec<Install>, usize))
    requires
        frame.wf(),
    ensures
        result.0@ == frame.spec_lookup(height as int),
        result.1 == frame.spec_top(),
{
    (frame.lookup(height), frame.top())
}

/// Why a published install is refused.
#[derive(Debug, Clone, Copy, PartialEq, Eq, Structural)]
pub enum UpdateError {
    UnknownSource,
}

/// What a discovery server must do after acquiring an install: when `fresh`,
/// add the install to the collection of discovered installs and send it to the
/// fully-subscribed clients; when `frame_updated`, send the new frame to the
/// lightly-subscribed clients.
#[derive(Debug, Clone, Copy, PartialEq, Eq, Structural)]
pub struct UpdateOutcome {
    pub fresh: bool,
    pub frame_updated: bool,
}

/// `destination` is the view that `install` reaches.
pub open spec fn reaches(install: Install, destination: view::View) -> bool {
    &&& destination.spec_identifier()@ == install.destination@
    &&& destination.spec_height() == install.destination_height
}

/// The effect of acquiring `install`, whose destination is `destination`, on a
/// database and a frame, and its result.
///
/// An install whose source is unknown is refused and changes nothing. An
/// install already known is recorded again under its identifier and changes
/// nothing else. Otherwise its destination becomes known, and the frame takes
/// the install if it grows or improves the highway.
pub open spec fn acquisition(
    database: Database,
    frame: Frame,
    after_database: Database,
    after_frame: Frame,
    install: Install,
    destination: view::View,
    result: Result<UpdateOutcome, UpdateError>,
) -> bool {
    &&& after_frame.spec_base() == frame.spec_base()
    &&& match result {
        Err(error) => {
            &&& error == UpdateError::UnknownSource
            &&& !database.views.spec_map().contains_key(install.source@)
            &&& after_database.views.spec_map() == database.views.spec_map()
            &&& after_database.installs.spec_map() == database.installs.spec_map()
            &&& after_frame.installs() == frame.installs()
        },
        Ok(outcome) => {
            &&& database.views.spec_map().contains_key(install.source@)
            &&& after_database.installs.spec_map() == database.installs.spec_map().insert(
                install.identifier@,
                install,
            )
            &&& outcome.fresh == !database.installs.spec_map().contains_key(install.identifier@)
            &&& if outcome.fresh {
                &&& after_database.views.spec_map() == database.views.spec_map().insert(
                    install.destination@,
                    destination,
                )
                &&& outcome.frame_updated == (frame.spec_can_grow_by(install.spec_transition())
                    || frame.spec_can_improve_by(install.spec_transition()))
                &&& after_frame.installs() == if outcome.frame_updated {
                    acquired(frame.installs(), install)
                } else {
                    frame.installs()
                }
            } else {
                &&& after_database.views.spec_map() == database.views.spec_map()
                &&& !outcome.frame_updated
                &&& after_frame.installs() == frame.installs()
            }
        },
    }
}

/// A publication refused for its unknown source leaves the server as it was:
/// the install is not recorded, no view becomes known and the frame keeps its
/// highway; so the install is still unknown when it is published again.
pub proof fn lemma_refusal_leaves_no_trace(
    database: Database,
    frame: Frame,
    after_database: Database,
    after_frame: Frame,
    install: Install,
    destination: view::View,
    error: UpdateError,
)
    requires
        acquisition(database, frame, after_database, after_frame, install, destination, Err(error)),
    ensures
        !database.views.spec_map().contains_key(install.source@),
        after_database.installs.spec_map() == database.installs.spec_map(),
        after_database.installs.spec_map().contains_key(install.identifier@)
            == database.installs.spec_map().contains_key(install.identifier@),
        after_database.views.spec_map() == database.views.spec_map(),
        after_frame.installs() == frame.installs(),
{
}

/// An install not yet recorded, published from a known view, is acquired: it
/// is fresh, it is recorded under its identifier, and its destination becomes known.
pub proof fn lemma_new_install_acquired(
    database: Database,
    frame: Frame,
    after_database: Database,
    after_frame: Frame,
    install: Install,
    destination: view::View,
    result: Result<UpdateOutcome, UpdateError>,
)
    requires
        acquisition(database, frame, after_database, after_frame, install, destination, result),
        database.views.spec_map().contains_key(install.source@),
        !database.installs.spec_map().contains_key(install.identifier@),
    ensures
        result matches Ok(outcome) && outcome.fresh,
        after_database.installs.spec_map().contains_key(install.identifier@),
        after_database.installs.spec_map()[install.identifier@] == install,
        after_database.views.spec_map().contains_key(install.destination@),
        after_database.views.spec_map()[install.destination@] == destination,
{
}

/// Publishing an install already recorded again changes nothing: no view
/// becomes known, the frame keeps its highway, and the outcome says so.
pub proof fn lemma_republication_changes_nothing(
    database: Database,
    frame: Frame,
    after_database: Database,
    after_frame: Frame,
    install: Install,
    destination: view::View,
    result: Result<UpdateOutcome, UpdateError>,
)
    requires
        acquisition(database, frame, after_database, after_frame, install, destination, result),
        database.views.spec_map().contains_key(install.source@),
        database.installs.spec_map().contains_key(install.identifier@),
        database.installs.spec_map()[install.identifier@] == install,
    ensures
        result matches Ok(outcome) && !outcome.fresh && !outcome.frame_updated,
        after_database.installs.spec_map() == database.installs.spec_map(),
        after_database.views.spec_map() == database.views.spec_map(),
        after_frame.installs() == frame.installs(),
{
    assert(database.installs.spec_map().insert(install.identifier@, install) =~= database.installs.spec_map());
}

/// Acquires a published `install`, whose destination is `destination` (see `acquisition`).
pub fn update(database: &mut Database, frame: &mut Frame, install: Install, destination: view::View) -> (result:
    Result<UpdateOutcome, UpdateError>)
    requires
        old(database).wf(),
        old(frame).wf(),
        install.valid(),
        reaches(install, destination),
    ensures
        final(database).wf(),
        final(frame).wf(),
        acquisition(*old(database), *old(frame), *final(database), *final(frame), install, destination, result),
{
    if !database.views.contains_key(&install.source) {
        return Err(UpdateError::UnknownSource);
    }

    if database.installs.insert(install.identifier, install).is_some() {
        return Ok(UpdateOutcome { fresh: false, frame_updated: false });
    }

    database.views.insert(install.destination, destination);

    match frame.update(install) {
        Some(next) => {
            *frame = next;
            Ok(UpdateOutcome { fresh: true, frame_updated: true })
        },
        None => Ok(UpdateOutcome { fresh: true, frame_updated: false }),
    }
}

/// Serves a publication: the install is acquired (see `acquisition`) and
/// acknowledged; one whose source is unknown closes the connection unacknowledged.
pub fn serve_publish(database: &mut Database, frame: &mut Frame, install: Install, destination: view::View) -> (result:
    Result<(UpdateOutcome, Response), ServeError>)
    requires
        old(database).wf(),
        old(frame).wf(),
        install.valid(),
        reaches(install, destination),
    ensures
        final(database).wf(),
        final(frame).wf(),
        match result {
            Ok((outcome, response)) => {
                &&& response is AcknowledgePublish
                &&& acquisition(
                    *old(database),
                    *old(frame),
                    *final(database),
                    *final(frame),
                    install,
                    destination,
                    Ok(outcome),
                )
            },
            Err(error) => {
                &&& error == ServeError::UpdateFailed
                &&& acquisition(
                    *old(database),
                    *old(frame),
                    *final(database),
                    *final(frame),
                    install,
                    destination,
                    Err(UpdateError::UnknownSource),
                )
            },
        },
{
    match update(database, frame, install, destination) {
        Ok(outcome) => Ok((outcome, Response::AcknowledgePublish)),
        Err(_) => Err(ServeError::UpdateFailed),
    }
}

/// Why a server without an install database refuses a published install.
#[derive(Debug, Clone, Copy, PartialEq, Eq, Structural)]
pub enum PublishError {
    UnknownView,
}

/// Accepts a published `install`, whose destination is `destination`, in a
/// server that keeps views only: an install whose source is known makes its
/// destination known, and is to be passed on to the frame; any other is refused.
pub fn accept_publish(views: &mut Table<view::View>, install: Install, destination: view::View) -> (result:
    Result<(), PublishError>)
    requires
        old(views).wf(),
        reaches(install, destination),
    ensures
        final(views).wf(),
        if old(views).spec_map().contains_key(install.source@) {
            &&& result == Ok::<(), PublishError>(())
            &&& final(views).spec_map() == old(views).spec_map().insert(install.destination@, destination)
        } else {
            &&& result == Err::<(), PublishError>(PublishError::UnknownView)
            &&& final(views).spec_map() == old(views).spec_map()
        },
{
    if views.contains_key(&install.source) {
        views.insert(install.destination, destination);
        Ok(())
    } else {
        Err(PublishError::UnknownView)
    }
}

/// The height of the source view of `install`, as `views` knows it.
pub open spec fn source_height(views: Map<Seq<u8>, view::View>, install: Install) -> nat {
    views[install.source@].spec_height()
}

/// The installs are in non-decreasing order of the heights of their sources.
pub open spec fn by_source_height(views: Map<Seq<u8>, view::View>, installs: Seq<Install>) -> bool {
    forall|i: int, j: int|
        0 <= i < j < installs.len() ==> source_height(views, #[trigger] installs[i])
            <= source_height(views, #[trigger] installs[j])
}

/// Whether the source of an install lies at `height`, as `views` knows it.
pub open spec fn at_height(views: Map<Seq<u8>, view::View>, height: nat) -> spec_fn(Install) -> bool {
    |install: Install| source_height(views, install) == height
}

/// Inserting an install into a list, before every install of a higher source
/// and after all others, appends it to the installs of its own height and
/// leaves those of the other heights alone.
proof fn lemma_insert_by_height(
    views: Map<Seq<u8>, view::View>,
    before: Seq<Install>,
    position: int,
    install: Install,
    height: nat,
)
    requires
        0 <= position <= before.len(),
        forall|i: int|
            position <= i < before.len() ==> source_height(views, #[trigger] before[i])
                > source_height(views, install),
    ensures
        before.insert(position, install).filter(at_height(views, height)) == if source_height(
            views,
            install,
        ) == height {
            before.filter(at_height(views, height)).push(install)
        } else {
            before.filter(at_height(views, height))
        },
{
    let pred = at_height(views, height);
    let front = before.take(position);
    let back = before.skip(position);
    assert(before.insert(position, install) =~= (front + seq![install]) + back);
    assert(before =~= front + back);
    Seq::filter_distributes_over_add(front + seq![install], back, pred);
    Seq::filter_distributes_over_add(front, seq![install], pred);
    Seq::filter_distributes_over_add(front, back, pred);
    assert(seq![install] =~= Seq::<Install>::empty().push(install));
    Seq::<Install>::empty().lemma_filter_push(install, pred);
    assert(Seq::<Install>::empty().filter(pred) =~= Seq::<Install>::empty()) by {
        reveal(Seq::filter);
    }
    if source_height(views, install) == height {
        assert(back.all(|x: Install| !pred(x))) by {
            assert forall|i: int| 0 <= i < back.len() implies !pred(#[trigger] back[i]) by {
                assert(back[i] == before[position + i]);
            }
        }
        back.lemma_all_neg_filter_empty(pred);
        assert(back.filter(pred) =~= Seq::<Install>::empty());
        assert(front.filter(pred) + seq![install] =~= front.filter(pred).push(install));
        assert(front.filter(pred) + Seq::<Install>::empty() =~= front.filter(pred));
    } else {
        assert(front.filter(pred) + Seq::<Install>::empty() =~= front.filter(pred));
    }
}

/// The installs of digests `gaps`, which a fully-subscribing client lacks,
/// sorted by increasing height of their source views; installs whose sources
/// lie at the same height keep the order of `gaps`. Every digest of `gaps` must
/// be known, and so must the source of its install.
pub fn gap_installs(database: &Database, gaps: &Vec<Digest>) -> (result: Vec<Install>)
    requires
        database.wf(),
        forall|i: int|
            0 <= i < gaps@.len() ==> database.installs.spec_map().contains_key(#[trigger] gaps@[i]@),
        forall|i: int|
            0 <= i < gaps@.len() ==> database.views.spec_map().contains_key(
                database.installs.spec_map()[#[trigger] gaps@[i]@].source@,
            ),
    ensures
        by_source_height(database.views.spec_map(), result@),
        forall|height: nat|
            #[trigger] result@.filter(at_height(database.views.spec_map(), height))
                == gaps@.map_values(|gap: Digest| database.installs.spec_map()[gap@]).filter(
                at_height(database.views.spec_map(), height),
            ),
        result@.to_multiset() == gaps@.map_values(
            |gap: Digest| database.installs.spec_map()[gap@],
        ).to_multiset(),
{
    let ghost views = database.views.spec_map();
    let ghost wanted = gaps@.map_values(|gap: Digest| database.installs.spec_map()[gap@]);
    let mut updates: Vec<(usize, Install)> = Vec::new();
    let mut result: Vec<Install> = Vec::new();
    let mut index: usize = 0;
    while index < gaps.len()
        invariant
            database.wf(),
            views == database.views.spec_map(),
            wanted == gaps@.map_values(|gap: Digest| database.installs.spec_map()[gap@]),
            forall|i: int|
                0 <= i < gaps@.len() ==> database.installs.spec_map().contains_key(
                    #[trigger] gaps@[i]@,
                ),
            forall|i: int|
                0 <= i < gaps@.len() ==> database.views.spec_map().contains_key(
                    database.installs.spec_map()[#[trigger] gaps@[i]@].source@,
                ),
            0 <= index <= gaps@.len(),
            updates@.len() == result@.len(),
            forall|i: int|
                0 <= i < updates@.len() ==> (#[trigger] updates@[i]).1 == result@[i]
                    && updates@[i].0 == source_height(views, result@[i]),
            by_source_height(views, result@),
            forall|height: nat|
                #[trigger] result@.filter(at_height(views, height)) == wanted.take(
                    index as int,
                ).filter(at_height(views, height)),
            result@.to_multiset() == wanted.take(index as int).to_multiset(),
        decreases gaps@.len() - index,
    {
        let install = match database.install(&gaps[index]) {
            Some(install) => install,
            None => {
                proof {
                    assert(database.installs.spec_map().contains_key(gaps@[index as int]@));
                }
                return result;
            },
        };
        let height = match database.view(&install.source) {
            Some(view) => view.height(),
            None => {
                proof {
                    assert(database.views.spec_map().contains_key(
                        database.installs.spec_map()[gaps@[index as int]@].source@,
                    ));
                }
                return result;
            },
        };

        // Insert after every update whose height is not greater.
        let mut position: usize = result.len();
        while position > 0 && updates[position - 1].0 > height
            invariant
                0 <= position <= updates@.len(),
                updates@.len() == result@.len(),
                forall|i: int|
                    0 <= i < updates@.len() ==> (#[trigger] updates@[i]).1 == result@[i]
                        && updates@[i].0 == source_height(views, result@[i]),
                forall|i: int| position <= i < updates@.len() ==> (#[trigger] updates@[i]).0 > height,
            decreases position,
        {
            position = position - 1;
        }
        let ghost before = result@;
        proof {
            assert(height == source_height(views, install));
        }
        updates.insert(position, (height, install));
        result.insert(position, install);
        proof {
            assert forall|i: int, j: int|
                0 <= i < j < result@.len() implies source_height(views, #[trigger] result@[i])
                <= source_height(views, #[trigger] result@[j]) by {
                if j < position {
                    assert(result@[i] == before[i] && result@[j] == before[j]);
                } else if j == position {
                    assert(result@[i] == before[i]);
                    assert(updates@[i].0 <= height);
                } else if i > position {
                    assert(result@[i] == before[i - 1] && result@[j] == before[j - 1]);
                } else if i == position {
                    assert(result@[j] == before[j - 1]);
                    assert(updates@[j].0 > height);
                } else {
                    assert(result@[i] == before[i] && result@[j] == before[j - 1]);
                }
            }
            assert(wanted.take(index + 1) =~= wanted.take(index as int).push(wanted[index as int]));
            assert(wanted[index as int] == install);
            assert forall|height: nat|
                #[trigger] result@.filter(at_height(views, height)) == wanted.take(
                    index + 1,
                ).filter(at_height(views, height)) by {
                assert forall|i: int|
                    position <= i < before.len() implies source_height(views, #[trigger] before[i])
                    > source_height(views, install) by {
                    assert(updates@[i + 1].1 == result@[i + 1]);
                    assert(result@[i + 1] == before[i]);
                }
                lemma_insert_by_height(views, before, position as int, install, height);
                wanted.take(index as int).lemma_filter_push(install, at_height(views, height));
            }
        }
        index = index + 1;
    }
    assert(wanted.take(index as int) =~= wanted);
    assert forall|height: nat|
        #[trigger] result@.filter(at_height(views, height)) == wanted.filter(
            at_height(views, height),
        ) by {
        assert(result@.filter(at_height(views, height)) == wanted.take(index as int).filter(
            at_height(views, height),
        ));
    }
    result
}

} // verus!
