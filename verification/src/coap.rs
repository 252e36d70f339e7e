//! A small CoAP server: resources with names, and the answers to requests for them.

use crate::coap_message;
use crate::coap_message::{
    decoded, encoded, fresh_response, method_name, method_of, response_kind, status_code,
    ClientError, CoapRequest, CoapResponse, Message, MessageType, Packet, RequestType, ResponseType,
    ServerError, Success,
};
use coap_lite::error::MessageError;
use vstd::prelude::*;
use vstd::utf8::encode_utf8;

verus! {

/// A response that says that the method of a request is not implemented for the path.
pub open spec fn not_implemented_response(request: Message, response: Message) -> Message {
    Message {
        code: status_code(ResponseType::ServerError(ServerError::NotImplemented)),
        payload: encode_utf8(
            "method not implemented: "@ + method_name(method_of(request.code)) + " -> "@
                + request.path(),
        ),
        ..response
    }
}

/// A response that says that there is no resource of the path of a request.
pub open spec fn not_found_response(request: Message, response: Message) -> Message {
    Message {
        code: status_code(ResponseType::ClientError(ClientError::NotFound)),
        payload: encode_utf8("resource not found:  "@ + request.path()),
        ..response
    }
}

/// Says in a response that the method of the request is not implemented for the path.
pub fn not_implemented(request: &CoapRequest, response: &mut CoapResponse)
    ensures
        final(response)@ == not_implemented_response(request@, old(response)@),
{
    response.set_status(ResponseType::ServerError(ServerError::NotImplemented));
    let mut text: String = "method not implemented: ".to_owned();
    text.append(coap_message::name_of_method(request.get_method()).as_str());
    text.append(" -> ");
    text.append(request.get_path().as_str());
    response.message.payload = vstd::slice::slice_to_vec(text.as_str().as_bytes());
}

/// Says in a response that there is no resource of the path of the request.
pub fn not_found(request: &CoapRequest, response: &mut CoapResponse)
    ensures
        final(response)@ == not_found_response(request@, old(response)@),
{
    response.set_status(ResponseType::ClientError(ClientError::NotFound));
    let mut text: String = "resource not found:  ".to_owned();
    text.append(request.get_path().as_str());
    response.message.payload = vstd::slice::slice_to_vec(text.as_str().as_bytes());
}

/// Something that a server can be asked about. What a resource makes of a response and of its own
/// state is up to it; it says so by the three relations, in which `next` is its state afterwards. A resource that does not take a method says so in its response,
/// by [`not_implemented`].
pub trait Resource: Send {
    /// The path of the resource.
    spec fn spec_name(&self) -> Seq<char>;

    /// The state of the resource, as numbers.
    spec fn state(&self) -> Seq<int>;

    /// What may become of a response to a request that gets the resource, and of the state.
    spec fn get_outcome(
        &self,
        request: Message,
        before: Message,
        after: Message,
        next: Seq<int>,
    ) -> bool;

    /// What may become of a response to a request that puts the resource, and of the state.
    spec fn put_outcome(
        &self,
        request: Message,
        before: Message,
        after: Message,
        next: Seq<int>,
    ) -> bool;

    /// What may become of a response to a request that posts to the resource, and of the state.
    spec fn post_outcome(
        &self,
        request: Message,
        before: Message,
        after: Message,
        next: Seq<int>,
    ) -> bool;

    /// The path of the resource.
    fn name(&self) -> (name: &str)
        ensures
            name@ == self.spec_name(),
    ;

    /// Answers a request that gets the resource.
    fn get(&mut self, request: &CoapRequest, response: &mut CoapResponse)
        requires
            old(response)@.wf(),
        ensures
            final(response)@.wf(),
            old(self).get_outcome(
                request@,
                old(response)@,
                final(response)@,
                final(self).state(),
            ),
    ;

    /// Answers a request that puts the resource.
    fn put(&mut self, request: &CoapRequest, response: &mut CoapResponse)
        requires
            old(response)@.wf(),
        ensures
            final(response)@.wf(),
            old(self).put_outcome(
                request@,
                old(response)@,
                final(response)@,
                final(self).state(),
            ),
    ;

    /// Answers a request that posts to the resource.
    fn post(&mut self, request: &CoapRequest, response: &mut CoapResponse)
        requires
            old(response)@.wf(),
        ensures
            final(response)@.wf(),
            old(self).post_outcome(
                request@,
                old(response)@,
                final(response)@,
                final(self).state(),
            ),
    ;
}

/// Tells about the device. It can be got, and nothing else.
pub struct InfoResource {}

/// The response to a request that gets the device's information.
pub open spec fn info_response(response: Message) -> Message {
    Message {
        code: status_code(ResponseType::Success(Success::Valid)),
        payload: encode_utf8("this is written in rust :P"@),
        ..response
    }
}

impl Resource for InfoResource {
    open spec fn spec_name(&self) -> Seq<char> {
        "info"@
    }

    open spec fn state(&self) -> Seq<int> {
        Seq::empty()
    }

    open spec fn get_outcome(
        &self,
        request: Message,
        before: Message,
        after: Message,
        next: Seq<int>,
    ) -> bool {
        after == info_response(before) && next == self.state()
    }

    open spec fn put_outcome(
        &self,
        request: Message,
        before: Message,
        after: Message,
        next: Seq<int>,
    ) -> bool {
        after == not_implemented_response(request, before) && next == self.state()
    }

    open spec fn post_outcome(
        &self,
        request: Message,
        before: Message,
        after: Message,
        next: Seq<int>,
    ) -> bool {
        after == not_implemented_response(request, before) && next == self.state()
    }

    fn name(&self) -> (name: &str) {
        "info"
    }

    fn get(&mut self, _request: &CoapRequest, response: &mut CoapResponse) {
        response.set_status(ResponseType::Success(Success::Valid));
        response.message.payload = vstd::slice::slice_to_vec(
            "this is written in rust :P".as_bytes(),
        );
    }

    fn put(&mut self, request: &CoapRequest, response: &mut CoapResponse) {
        not_implemented(request, response);
    }

    fn post(&mut self, request: &CoapRequest, response: &mut CoapResponse) {
        not_implemented(request, response);
    }
}

/// A resource behind a pointer is the resource, so that resources of different types can stand in
/// one server.
impl<R: Resource + ?Sized> Resource for Box<R> {
    open spec fn spec_name(&self) -> Seq<char> {
        (**self).spec_name()
    }

    open spec fn state(&self) -> Seq<int> {
        (**self).state()
    }

    open spec fn get_outcome(
        &self,
        request: Message,
        before: Message,
        after: Message,
        next: Seq<int>,
    ) -> bool {
        (**self).get_outcome(request, before, after, next)
    }

    open spec fn put_outcome(
        &self,
        request: Message,
        before: Message,
        after: Message,
        next: Seq<int>,
    ) -> bool {
        (**self).put_outcome(request, before, after, next)
    }

    open spec fn post_outcome(
        &self,
        request: Message,
        before: Message,
        after: Message,
        next: Seq<int>,
    ) -> bool {
        (**self).post_outcome(request, before, after, next)
    }

    fn name(&self) -> (name: &str) {
        (**self).name()
    }

    fn get(&mut self, request: &CoapRequest, response: &mut CoapResponse) {
        (**self).get(request, response)
    }

    fn put(&mut self, request: &CoapRequest, response: &mut CoapResponse) {
        (**self).put(request, response)
    }

    fn post(&mut self, request: &CoapRequest, response: &mut CoapResponse) {
        (**self).post(request, response)
    }
}

/// The resources of a server, found by their names.
pub struct CoapStateManager<R: Resource> {
    handlers: Vec<(String, R)>,
}

/// The resources that a list holds, by their names.
spec fn by_name<R>(handlers: Seq<(String, R)>) -> Map<Seq<char>, R>
    decreases handlers.len(),
{
    if handlers.len() == 0 {
        Map::empty()
    } else {
        by_name(handlers.drop_last()).insert(handlers.last().0@, handlers.last().1)
    }
}

/// Whether no two resources in a list have the same name.
spec fn names_differ<R>(handlers: Seq<(String, R)>) -> bool {
    forall|i: int, j: int|
        0 <= i < j < handlers.len() ==> #[trigger] handlers[i].0@ != #[trigger] handlers[j].0@
}

/// A list holds exactly the resources that stand in it, each under its name.
proof fn by_name_finds<R>(handlers: Seq<(String, R)>)
    requires
        names_differ(handlers),
    ensures
        forall|i: int|
            0 <= i < handlers.len() ==> by_name(handlers).contains_key(
                (#[trigger] handlers[i]).0@,
            ) && by_name(handlers)[handlers[i].0@] == handlers[i].1,
        forall|name: Seq<char>| #[trigger]
            by_name(handlers).contains_key(name) ==> exists|i: int|
                0 <= i < handlers.len() && (#[trigger] handlers[i]).0@ == name,
    decreases handlers.len(),
{
    if handlers.len() > 0 {
        let before = handlers.drop_last();
        by_name_finds(before);
        assert forall|i: int| 0 <= i < handlers.len() implies by_name(handlers).contains_key(
            (#[trigger] handlers[i]).0@,
        ) && by_name(handlers)[handlers[i].0@] == handlers[i].1 by {
            if i < before.len() {
                assert(before[i] == handlers[i]);
                assert(handlers[i].0@ != handlers[handlers.len() - 1].0@);
            }
        }
        assert forall|name: Seq<char>| #[trigger]
            by_name(handlers).contains_key(name) implies exists|i: int|
            0 <= i < handlers.len() && (#[trigger] handlers[i]).0@ == name by {
            if name == handlers.last().0@ {
                assert(handlers[handlers.len() - 1].0@ == name);
            } else {
                assert(by_name(before).contains_key(name));
                let i = choose|i: int| 0 <= i < before.len() && (#[trigger] before[i]).0@ == name;
                assert(handlers[i].0@ == name);
            }
        }
    }
}

/// Replacing a resource in a list replaces what is found under its name.
proof fn by_name_replaces<R>(handlers: Seq<(String, R)>, at: int, resource: R)
    requires
        names_differ(handlers),
        0 <= at < handlers.len(),
    ensures
        names_differ(handlers.update(at, (handlers[at].0, resource))),
        by_name(handlers.update(at, (handlers[at].0, resource))) == by_name(handlers).insert(
            handlers[at].0@,
            resource,
        ),
    decreases handlers.len(),
{
    let changed = handlers.update(at, (handlers[at].0, resource));
    assert forall|i: int, j: int| 0 <= i < j < changed.len() implies #[trigger] changed[i].0@
        != #[trigger] changed[j].0@ by {
        assert(handlers[i].0@ != handlers[j].0@);
    }
    let before = handlers.drop_last();
    if at < before.len() {
        by_name_replaces(before, at, resource);
        assert(changed.drop_last() =~= before.update(at, (before[at].0, resource)));
        assert(handlers[at].0@ != handlers[handlers.len() - 1].0@);
        assert(by_name(changed) =~= by_name(handlers).insert(handlers[at].0@, resource));
    } else {
        assert(changed.drop_last() =~= before);
        assert(by_name(changed) =~= by_name(handlers).insert(handlers[at].0@, resource));
    }
}

impl<R: Resource> CoapStateManager<R> {
    /// The resources, by their names.
    pub closed spec fn resources(&self) -> Map<Seq<char>, R> {
        by_name(self.handlers@)
    }

    /// No two resources have the same name.
    pub closed spec fn wf(&self) -> bool {
        names_differ(self.handlers@)
    }

    /// A server without resources.
    pub fn new() -> (manager: Self)
        ensures
            manager.wf(),
            manager.resources() == Map::<Seq<char>, R>::empty(),
    {
        Self { handlers: Vec::new() }
    }

    /// Where the resource of a name stands.
    fn find(&self, name: &String) -> (found: Option<usize>)
        requires
            self.wf(),
        ensures
            match found {
                Some(at) => {
                    &&& at < self.handlers@.len()
                    &&& self.handlers@[at as int].0@ == name@
                    &&& self.resources().contains_key(name@)
                    &&& self.resources()[name@] == self.handlers@[at as int].1
                },
                None => {
                    &&& !self.resources().contains_key(name@)
                    &&& forall|i: int|
                        0 <= i < self.handlers@.len() ==> (#[trigger] self.handlers@[i]).0@ != name@
                },
            },
    {
        proof {
            by_name_finds(self.handlers@);
        }
        let mut at: usize = 0;
        while at < self.handlers.len()
            invariant
                at <= self.handlers@.len(),
                self.wf(),
                forall|i: int| 0 <= i < at ==> (#[trigger] self.handlers@[i]).0@ != name@,
            decreases self.handlers.len() - at,
        {
            if self.handlers[at].0.eq(name) {
                proof {
                    by_name_finds(self.handlers@);
                }
                return Some(at);
            }
            at += 1;
        }
        None
    }

    /// Adds a resource. One of the same name is replaced, and whether there was one is returned.
    pub fn add_resource(&mut self, resource: R) -> (replaced: bool)
        requires
            old(self).wf(),
        ensures
            replaced == old(self).resources().contains_key(resource.spec_name()),
            final(self).wf(),
            final(self).resources() == old(self).resources().insert(resource.spec_name(), resource),
    {
        let name: String = resource.name().to_owned();
        match self.find(&name) {
            Some(at) => {
                proof {
                    by_name_replaces(self.handlers@, at as int, resource);
                }
                let ghost before = self.handlers@;
                self.handlers[at].1 = resource;
                assert(self.handlers@ =~= before.update(at as int, (before[at as int].0, resource)));
                true
            },
            None => {
                let ghost before = self.handlers@;
                self.handlers.push((name, resource));
                assert(self.handlers@.drop_last() =~= before);
                false
            },
        }
    }

    /// Decides what becomes of a request before its resource is asked.
    pub fn decide(&self, request: &CoapRequest) -> (decision: Decision)
        requires
            self.wf(),
        ensures
            match decision {
                Decision::NoResponse => response_kind(request.message.kind) is None,
                Decision::Respond(response) => {
                    &&& response_kind(request.message.kind) matches Some(kind)
                    &&& !is_handled(self.resources(), request@)
                    &&& response@ == refusal(
                        self.resources(),
                        request@,
                        fresh_response(request@, kind),
                    )
                },
                Decision::Handle(method, response) => {
                    &&& response_kind(request.message.kind) matches Some(kind)
                    &&& is_handled(self.resources(), request@)
                    &&& method == method_of(request.message.code)
                    &&& response@ == fresh_response(request@, kind)
                },
            },
    {
        let mut response = match CoapResponse::new(&request.message) {
            Some(response) => response,
            None => {
                return Decision::NoResponse;
            },
        };
        if self.find(&request.get_path()).is_none() {
            not_found(request, &mut response);
            return Decision::Respond(response);
        }
        let method = request.get_method();
        match method {
            RequestType::Get | RequestType::Put | RequestType::Post => Decision::Handle(
                method,
                response,
            ),
            _ => {
                not_implemented(request, &mut response);
                Decision::Respond(response)
            },
        }
    }

    /// Answers a request, if it is to be answered: by the resource of its path, or by a refusal.
    pub fn handle_request(&mut self, request: &CoapRequest) -> (response: Option<CoapResponse>)
        requires
            old(self).wf(),
            request@.wf(),
        ensures
            final(self).wf(),
            responds(
                old(self).resources(),
                request@,
                response_view(response),
                final(self).resources(),
            ),
            response matches Some(response) ==> response@.wf(),
            only_changes(old(self).resources(), final(self).resources(), request@),
    {
        let (method, mut response) = match self.decide(request) {
            Decision::NoResponse => {
                return None;
            },
            Decision::Respond(response) => {
                return Some(response);
            },
            Decision::Handle(method, response) => (method, response),
        };
        if let Some(at) = self.find(&request.get_path()) {
            let ghost before = self.handlers@;
            match method {
                RequestType::Get => self.handlers[at].1.get(request, &mut response),
                RequestType::Put => self.handlers[at].1.put(request, &mut response),
                _ => self.handlers[at].1.post(request, &mut response),
            }
            proof {
                let after = self.handlers@[at as int].1;
                assert(self.handlers@ =~= before.update(at as int, (before[at as int].0, after)));
                by_name_replaces(before, at as int, after);
                assert(self.resources().dom() =~= old(self).resources().dom());
            }
        }
        Some(response)
    }

    /// Answers a message.
    pub fn answer_packet(&mut self, packet: Packet) -> (answer: CoapAnswer)
        requires
            old(self).wf(),
            packet@.wf(),
        ensures
            final(self).wf(),
            answers(old(self).resources(), packet@, answer, final(self).resources()),
            only_changes(old(self).resources(), final(self).resources(), packet@),
    {
        let request = CoapRequest::from_packet(packet);
        let response = self.handle_request(&request);
        assert(responds(
            old(self).resources(),
            packet@,
            response_view(response),
            self.resources(),
        ));
        match response {
            None => CoapAnswer::NoResponse,
            Some(response) => {
                match coap_message::to_bytes(&response.message) {
                    Ok(bytes) => CoapAnswer::Reply(bytes),
                    Err(error) => CoapAnswer::Unsendable(error),
                }
            },
        }
    }

    /// Answers the message in a datagram.
    pub fn answer_datagram(&mut self, datagram: &[u8]) -> (answer: CoapAnswer)
        requires
            old(self).wf(),
        ensures
            final(self).wf(),
            match decoded(datagram@) {
                None => answer is Malformed && final(self).resources() == old(self).resources(),
                Some(message) => {
                    &&& answers(old(self).resources(), message, answer, final(self).resources())
                    &&& only_changes(old(self).resources(), final(self).resources(), message)
                },
            },
    {
        match coap_message::from_bytes(datagram) {
            Ok(packet) => self.answer_packet(packet),
            Err(error) => CoapAnswer::Malformed(error),
        }
    }
}

impl<D: Resource + ?Sized> CoapStateManager<Box<D>> {
    /// Adds a resource behind a pointer, which may be of any type where `D` is `dyn Resource`. One
    /// of the same name is replaced, and whether there was one is returned.
    pub fn add_dyn_resource(&mut self, resource: Box<D>) -> (replaced: bool)
        requires
            old(self).wf(),
        ensures
            replaced == old(self).resources().contains_key(resource.spec_name()),
            final(self).wf(),
            final(self).resources() == old(self).resources().insert(resource.spec_name(), resource),
    {
        self.add_resource(resource)
    }
}

/// What becomes of a request before its resource is asked.
pub enum Decision {
    /// It is not answered.
    NoResponse,
    /// It is refused, by this response.
    Respond(CoapResponse),
    /// The resource of its path is asked by this method, with this response to fill.
    Handle(RequestType, CoapResponse),
}

/// What becomes of a datagram.
pub enum CoapAnswer {
    /// It does not hold a message.
    Malformed(MessageError),
    /// The message in it is not answered.
    NoResponse,
    /// The answer to it cannot be written.
    Unsendable(MessageError),
    /// These bytes go back.
    Reply(Vec<u8>),
}

/// A response as a mathematical value.
pub open spec fn response_view(response: Option<CoapResponse>) -> Option<Message> {
    match response {
        Some(response) => Some(response@),
        None => None,
    }
}

/// Whether a request is for a resource that there is, by a method that resources take.
pub open spec fn is_handled<R: Resource>(resources: Map<Seq<char>, R>, request: Message) -> bool {
    &&& resources.contains_key(request.path())
    &&& match method_of(request.code) {
        RequestType::Get | RequestType::Put | RequestType::Post => true,
        _ => false,
    }
}

/// What a response to a request that no resource is asked about becomes.
pub open spec fn refusal<R: Resource>(
    resources: Map<Seq<char>, R>,
    request: Message,
    response: Message,
) -> Message {
    if resources.contains_key(request.path()) {
        not_implemented_response(request, response)
    } else {
        not_found_response(request, response)
    }
}

/// Whether `after` may become of a response that the resource of the path is asked to fill, once
/// and by the method of the request, and `next` of the state of the resource.
pub open spec fn outcome<R: Resource>(
    resource: R,
    request: Message,
    before: Message,
    after: Message,
    next: Seq<int>,
) -> bool {
    match method_of(request.code) {
        RequestType::Get => resource.get_outcome(request, before, after, next),
        RequestType::Put => resource.put_outcome(request, before, after, next),
        _ => resource.post_outcome(request, before, after, next),
    }
}

/// Whether `response` may answer a request to a server with these resources, and leave it with the
/// resources `next`. Confirmable and non-confirmable messages are answered, others not. The resource
/// of the path is asked once, by `Get`, `Put` or `Post`; other methods, and paths without a
/// resource, are refused.
pub open spec fn responds<R: Resource>(
    resources: Map<Seq<char>, R>,
    request: Message,
    response: Option<Message>,
    next: Map<Seq<char>, R>,
) -> bool {
    match (response_kind(request.kind), response) {
        (None, None) => true,
        (Some(kind), Some(after)) => {
            let before = fresh_response(request, kind);
            if is_handled(resources, request) {
                outcome(
                    resources[request.path()],
                    request,
                    before,
                    after,
                    next[request.path()].state(),
                )
            } else {
                after == refusal(resources, request, before)
            }
        },
        _ => false,
    }
}

/// Whether the resources are the same but for the one that was asked.
pub open spec fn only_changes<R: Resource>(
    before: Map<Seq<char>, R>,
    after: Map<Seq<char>, R>,
    request: Message,
) -> bool {
    &&& after.dom() == before.dom()
    &&& forall|name: Seq<char>|
        before.contains_key(name) && name != request.path() ==> #[trigger] after[name]
            == before[name]
    &&& response_kind(request.kind) is None || !is_handled(before, request) ==> after == before
}

/// Whether a message is written as these bytes, or cannot be written.
pub open spec fn is_written(message: Message, bytes: Option<Seq<u8>>) -> bool {
    &&& bytes == encoded(message)
    &&& message.options.len() == 0 && message.code != 0 ==> bytes == if coap_message::plain_bytes(
        message,
    ).len() <= coap_message::MAX_MESSAGE_SIZE {
        Some(coap_message::plain_bytes(message))
    } else {
        None
    }
}

/// Whether `answer` may be the answer to a message, and leave the server with the resources `next`.
pub open spec fn answers<R: Resource>(
    resources: Map<Seq<char>, R>,
    request: Message,
    answer: CoapAnswer,
    next: Map<Seq<char>, R>,
) -> bool {
    exists|response: Option<Message>| #[trigger]
        responds(resources, request, response, next) && match (answer, response) {
            (CoapAnswer::NoResponse, None) => true,
            (CoapAnswer::Reply(bytes), Some(message)) => is_written(message, Some(bytes@)),
            (CoapAnswer::Unsendable(_), Some(message)) => is_written(message, None),
            _ => false,
        }
}

/// A refusal repeats the number and the token of its request, whatever the resources are, and
/// acknowledges the request if that is wanted.
pub proof fn refusal_repeats_number_and_token<R: Resource>(
    resources: Map<Seq<char>, R>,
    request: Message,
    response: Option<Message>,
    next: Map<Seq<char>, R>,
)
    requires
        responds(resources, request, response, next),
        !is_handled(resources, request),
    ensures
        response matches Some(after) ==> {
            &&& after.message_id == request.message_id
            &&& after.token == request.token
            &&& response_kind(request.kind) == Some(after.kind)
            &&& after.options.len() == 0
        },
{
}

/// A server answers exactly the confirmable and the non-confirmable messages, unless the answer
/// cannot be written.
pub proof fn requests_are_answered<R: Resource>(
    resources: Map<Seq<char>, R>,
    request: Message,
    answer: CoapAnswer,
    next: Map<Seq<char>, R>,
)
    requires
        answers(resources, request, answer, next),
    ensures
        answer is NoResponse <==> response_kind(request.kind) is None,
        answer !is Malformed,
{
}

/// A server that has nothing but the device's information answers every request with its number
/// and token; who gets the information gets it, who asks for it otherwise or for anything else is
/// refused.
pub proof fn info_server_answers(
    resources: Map<Seq<char>, InfoResource>,
    request: Message,
    response: Option<Message>,
    next: Map<Seq<char>, InfoResource>,
)
    requires
        resources == Map::<Seq<char>, InfoResource>::empty().insert("info"@, InfoResource {  }),
        responds(resources, request, response, next),
        response_kind(request.kind) is Some,
    ensures
        ({
            let before = fresh_response(request, response_kind(request.kind)->0);
            response == Some(
                if request.path() != "info"@ {
                    not_found_response(request, before)
                } else if method_of(request.code) == RequestType::Get {
                    info_response(before)
                } else {
                    not_implemented_response(request, before)
                },
            )
        }),
        response matches Some(after) && after.message_id == request.message_id && after.token
            == request.token,
{
}

/// Who gets the device's information from such a server is sent it: the answer can always be
/// written.
pub proof fn info_is_sent(
    resources: Map<Seq<char>, InfoResource>,
    request: Message,
    answer: CoapAnswer,
    next: Map<Seq<char>, InfoResource>,
)
    requires
        resources == Map::<Seq<char>, InfoResource>::empty().insert("info"@, InfoResource {  }),
        request.wf(),
        response_kind(request.kind) is Some,
        request.path() == "info"@,
        method_of(request.code) == RequestType::Get,
        answers(resources, request, answer, next),
    ensures
        ({
            let before = fresh_response(request, response_kind(request.kind)->0);
            answer matches CoapAnswer::Reply(bytes) && bytes@ == coap_message::plain_bytes(
                info_response(before),
            )
        }),
{
    let before = fresh_response(request, response_kind(request.kind)->0);
    let text = "this is written in rust :P";
    reveal_strlit("this is written in rust :P");
    vstd::utf8::is_ascii_chars_encode_utf8(text@);
    assert(coap_message::plain_bytes(info_response(before)).len() <= coap_message::MAX_MESSAGE_SIZE);
}

/// A message that asks to be acknowledged, or not to be, and whose path a resource has, is answered
/// by that resource: it is asked to get itself by code 1, to take a post by code 2 and to be put by
/// code 3, with a response that acknowledges the message if that is wanted, says that there is
/// content, repeats the number and the token of the message and is empty; and what it makes of the
/// response and of itself is the response and what it becomes. Every other code is refused, by name.
pub proof fn resource_is_asked_by_the_code<R: Resource>(
    resources: Map<Seq<char>, R>,
    request: Message,
    response: Option<Message>,
    next: Map<Seq<char>, R>,
)
    requires
        responds(resources, request, response, next),
        resources.contains_key(request.path()),
        request.kind is Confirmable || request.kind is NonConfirmable,
    ensures
        ({
            let resource = resources[request.path()];
            let state = next[request.path()].state();
            let before = Message {
                kind: if request.kind is Confirmable {
                    MessageType::Acknowledgement
                } else {
                    MessageType::NonConfirmable
                },
                code: 0x45,
                message_id: request.message_id,
                token: request.token,
                options: Seq::empty(),
                payload: Seq::empty(),
            };
            let name = if request.code == 4 {
                "Delete"@
            } else if request.code == 5 {
                "Fetch"@
            } else if request.code == 6 {
                "Patch"@
            } else if request.code == 7 {
                "IPatch"@
            } else {
                "UnKnown"@
            };
            response matches Some(after) && if request.code == 1 {
                resource.get_outcome(request, before, after, state)
            } else if request.code == 2 {
                resource.post_outcome(request, before, after, state)
            } else if request.code == 3 {
                resource.put_outcome(request, before, after, state)
            } else {
                after == (Message {
                    code: 0xa1,
                    payload: encode_utf8(
                        "method not implemented: "@ + name + " -> "@ + request.path(),
                    ),
                    ..before
                })
            }
        }),
{
}

/// A message that asks to be acknowledged, or not to be, and whose path no resource has, is told
/// that there is none, whatever its code.
pub proof fn missing_resource_is_not_found<R: Resource>(
    resources: Map<Seq<char>, R>,
    request: Message,
    response: Option<Message>,
    next: Map<Seq<char>, R>,
)
    requires
        responds(resources, request, response, next),
        !resources.contains_key(request.path()),
        request.kind is Confirmable || request.kind is NonConfirmable,
    ensures
        response == Some(
            Message {
                kind: if request.kind is Confirmable {
                    MessageType::Acknowledgement
                } else {
                    MessageType::NonConfirmable
                },
                code: 0x84,
                message_id: request.message_id,
                token: request.token,
                options: Seq::empty(),
                payload: encode_utf8("resource not found:  "@ + request.path()),
            },
        ),
{
}

/// Acknowledgements and resets are not answered.
pub proof fn other_messages_are_not_answered<R: Resource>(
    resources: Map<Seq<char>, R>,
    request: Message,
    response: Option<Message>,
    next: Map<Seq<char>, R>,
)
    requires
        responds(resources, request, response, next),
        request.kind is Acknowledgement || request.kind is Reset,
    ensures
        response is None,
{
}

/// A message leaves all resources as they are but the one of its path, and that one too unless it
/// asks to be acknowledged, or not to be, and has code 1, 2 or 3. No resource comes or goes.
pub proof fn other_resources_are_left_alone<R: Resource>(
    before: Map<Seq<char>, R>,
    after: Map<Seq<char>, R>,
    request: Message,
    name: Seq<char>,
)
    requires
        only_changes(before, after, request),
    ensures
        after.contains_key(name) == before.contains_key(name),
        before.contains_key(name) && name != request.path() ==> after[name] == before[name],
        request.kind is Acknowledgement || request.kind is Reset || !(1 <= request.code <= 3)
            || !before.contains_key(request.path()) ==> after == before,
{
    assert(after.dom().contains(name) == before.dom().contains(name));
}

/// A message whose path no resource has is sent the answer that there is none, byte by byte, if
/// that has no more than 1280 bytes, and nothing otherwise.
pub proof fn not_found_is_sent<R: Resource>(
    resources: Map<Seq<char>, R>,
    request: Message,
    answer: CoapAnswer,
    next: Map<Seq<char>, R>,
)
    requires
        answers(resources, request, answer, next),
        request.token.len() <= 15,
        !resources.contains_key(request.path()),
        request.kind is Confirmable || request.kind is NonConfirmable,
    ensures
        ({
            let text = encode_utf8("resource not found:  "@ + request.path());
            let first = request.token.len() + if request.kind is Confirmable {
                0x60int
            } else {
                0x50
            };
            if 5 + request.token.len() + text.len() <= 1280 {
                answer matches CoapAnswer::Reply(bytes) && bytes@ == seq![
                    first as u8,
                    0x84u8,
                    (request.message_id / 256) as u8,
                    (request.message_id % 256) as u8,
                ] + request.token + seq![0xffu8] + text
            } else {
                answer is Unsendable
            }
        }),
{
    let text = encode_utf8("resource not found:  "@ + request.path());
    let response = choose|response: Option<Message>| #[trigger]
        responds(resources, request, response, next) && match (answer, response) {
            (CoapAnswer::NoResponse, None) => true,
            (CoapAnswer::Reply(bytes), Some(message)) => is_written(message, Some(bytes@)),
            (CoapAnswer::Unsendable(_), Some(message)) => is_written(message, None),
            _ => false,
        };
    missing_resource_is_not_found(resources, request, response, next);
    reveal_strlit("resource not found:  ");
    assert(text.len() > 0) by {
        assert(("resource not found:  "@ + request.path()).len() > 0);
    }
    let message = response->0;
    let first = request.token.len() + if request.kind is Confirmable {
        0x60int
    } else {
        0x50
    };
    assert(coap_message::plain_bytes(message) =~= seq![
        first as u8,
        0x84u8,
        (request.message_id / 256) as u8,
        (request.message_id % 256) as u8,
    ] + request.token + seq![0xffu8] + text);
}

/// The device's information is got by code 1, and is then sent as text under code 2.03; other codes
/// are refused. The resource stays as it is.
pub proof fn info_is_got_and_not_changed(
    info: InfoResource,
    request: Message,
    before: Message,
    after: Message,
    next: Seq<int>,
)
    ensures
        info.spec_name() == "info"@,
        info.get_outcome(request, before, after, next) ==> next == info.state() && after
            == (Message {
            code: 0x43,
            payload: encode_utf8("this is written in rust :P"@),
            ..before
        }),
        request.code == 3 && info.put_outcome(request, before, after, next) ==> next
            == info.state() && after == (Message {
            code: 0xa1,
            payload: encode_utf8("method not implemented: "@ + "Put"@ + " -> "@ + request.path()),
            ..before
        }),
        request.code == 2 && info.post_outcome(request, before, after, next) ==> next
            == info.state() && after == (Message {
            code: 0xa1,
            payload: encode_utf8("method not implemented: "@ + "Post"@ + " -> "@ + request.path()),
            ..before
        }),
{
}

/// What a refusal says is put into the response, with its code, and the rest of the response stays
/// as it is.
pub proof fn refusals_say_what_is_wrong(request: Message, response: Message)
    ensures
        not_found_response(request, response) == (Message {
            code: 0x84,
            payload: encode_utf8("resource not found:  "@ + request.path()),
            ..response
        }),
        not_implemented_response(request, response) == (Message {
            code: 0xa1,
            payload: encode_utf8(
                "method not implemented: "@ + if request.code == 1 {
                    "Get"@
                } else if request.code == 2 {
                    "Post"@
                } else if request.code == 3 {
                    "Put"@
                } else if request.code == 4 {
                    "Delete"@
                } else if request.code == 5 {
                    "Fetch"@
                } else if request.code == 6 {
                    "Patch"@
                } else if request.code == 7 {
                    "IPatch"@
                } else {
                    "UnKnown"@
                } + " -> "@ + request.path(),
            ),
            ..response
        }),
{
}

/// What is sent is a response to the message, byte by byte: the kind and the length of the token,
/// the code, the number, the token, and the payload after a mark, if there is one. It is not sent if
/// it has more than 1280 bytes. (This leaves out responses with options, and empty ones, of code 0.)
pub proof fn response_is_sent<R: Resource>(
    resources: Map<Seq<char>, R>,
    request: Message,
    answer: CoapAnswer,
    next: Map<Seq<char>, R>,
) -> (response: Message)
    requires
        answers(resources, request, answer, next),
        request.kind is Confirmable || request.kind is NonConfirmable,
    ensures
        responds(resources, request, Some(response), next),
        answer is Reply || answer is Unsendable,
        response.options.len() == 0 && response.code != 0 && response.token.len() <= 15 ==> {
            let first = response.token.len() + match response.kind {
                MessageType::Confirmable => 0x40int,
                MessageType::NonConfirmable => 0x50,
                MessageType::Acknowledgement => 0x60,
                MessageType::Reset => 0x70,
            };
            let bytes = seq![
                first as u8,
                response.code,
                (response.message_id / 256) as u8,
                (response.message_id % 256) as u8,
            ] + response.token + if response.payload.len() > 0 {
                seq![0xffu8] + response.payload
            } else {
                Seq::empty()
            };
            if bytes.len() <= 1280 {
                answer matches CoapAnswer::Reply(sent) && sent@ == bytes
            } else {
                answer is Unsendable
            }
        },
{
    let response = choose|response: Option<Message>| #[trigger]
        responds(resources, request, response, next) && match (answer, response) {
            (CoapAnswer::NoResponse, None) => true,
            (CoapAnswer::Reply(bytes), Some(message)) => is_written(message, Some(bytes@)),
            (CoapAnswer::Unsendable(_), Some(message)) => is_written(message, None),
            _ => false,
        };
    let message = response->0;
    let first = message.token.len() + match message.kind {
        MessageType::Confirmable => 0x40int,
        MessageType::NonConfirmable => 0x50,
        MessageType::Acknowledgement => 0x60,
        MessageType::Reset => 0x70,
    };
    let payload = if message.payload.len() > 0 {
        seq![0xffu8] + message.payload
    } else {
        Seq::empty()
    };
    assert(coap_message::plain_bytes(message) =~= seq![
        first as u8,
        message.code,
        (message.message_id / 256) as u8,
        (message.message_id % 256) as u8,
    ] + message.token + payload);
    message
}

/// No answer is sent to an acknowledgement or a reset.
pub proof fn nothing_is_sent_to_other_messages<R: Resource>(
    resources: Map<Seq<char>, R>,
    request: Message,
    answer: CoapAnswer,
    next: Map<Seq<char>, R>,
)
    requires
        answers(resources, request, answer, next),
        request.kind is Acknowledgement || request.kind is Reset,
    ensures
        answer is NoResponse,
{
}

} // verus!
