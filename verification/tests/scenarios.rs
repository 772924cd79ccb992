//! End-to-end exchanges: a client connection talking to a served peer over
//! an in-memory duplex channel.  The serving side runs whenever the client
//! would otherwise wait for bytes.

use std::cell::RefCell;
use std::rc::Rc;

use drpc::conn::Conn;
use drpc::server::{serve_next, Mux};
use drpc::stream::{Error, State, Stream};
use drpc::transport::Transport;
use drpc::wire::{Fault, Wire};

struct Shared {
    a2b: Vec<u8>,
    b2a: Vec<u8>,
}

struct ServerEnd {
    sh: Rc<RefCell<Shared>>,
}

impl Wire for ServerEnd {
    fn read_chunk(&mut self, max: usize) -> Result<Vec<u8>, Fault> {
        let mut s = self.sh.borrow_mut();
        let n = max.min(s.a2b.len());
        Ok(s.a2b.drain(..n).collect())
    }

    fn write_all(&mut self, data: &[u8]) -> Result<(), Fault> {
        self.sh.borrow_mut().b2a.extend_from_slice(data);
        Ok(())
    }

    fn flush(&mut self) -> Result<(), Fault> {
        Ok(())
    }
}

struct ClientEnd {
    sh: Rc<RefCell<Shared>>,
    pump: Box<dyn FnMut()>,
}

impl Wire for ClientEnd {
    fn read_chunk(&mut self, max: usize) -> Result<Vec<u8>, Fault> {
        if self.sh.borrow().b2a.is_empty() {
            (self.pump)();
        }
        let mut s = self.sh.borrow_mut();
        let n = max.min(s.b2a.len());
        Ok(s.b2a.drain(..n).collect())
    }

    fn write_all(&mut self, data: &[u8]) -> Result<(), Fault> {
        self.sh.borrow_mut().a2b.extend_from_slice(data);
        Ok(())
    }

    fn flush(&mut self) -> Result<(), Fault> {
        Ok(())
    }
}

struct EchoMux;

impl Mux for EchoMux {
    fn serve<W: Wire>(
        &self,
        _rpc: &Vec<u8>,
        st: &mut Stream,
        tr: &mut Transport<W>,
    ) -> Result<(), Error> {
        let mut out: Vec<u8> = vec![];
        loop {
            match st.recv_into(tr, &mut out) {
                Ok(()) => st.send(tr, &out)?,
                Err(Error::StateError(_)) => break,
                Err(e) => return Err(e),
            }
        }
        let _ = tr.flush();
        Ok(())
    }
}

struct BoomMux;

impl Mux for BoomMux {
    fn serve<W: Wire>(
        &self,
        _rpc: &Vec<u8>,
        _st: &mut Stream,
        _tr: &mut Transport<W>,
    ) -> Result<(), Error> {
        Err(Error::StateError(State::RemoteError(0, "boom".to_owned())))
    }
}

fn client_against<M: Mux + 'static>(mux: M) -> Conn<ClientEnd> {
    let sh = Rc::new(RefCell::new(Shared { a2b: vec![], b2a: vec![] }));
    let server = Rc::new(RefCell::new((
        Transport::new(ServerEnd { sh: sh.clone() }),
        Vec::<u8>::new(),
    )));
    let pump_sh = server.clone();
    let pump = Box::new(move || {
        let mut s = pump_sh.borrow_mut();
        let (tr, mbuf) = &mut *s;
        let _ = serve_next(tr, mbuf, &mux);
    });
    Conn::new(Transport::new(ClientEnd { sh, pump }))
}

#[test]
fn echo_round_trip() {
    let mut conn = client_against(EchoMux);
    let mut out: Vec<u8> = vec![];
    conn.invoke_into(b"/s.S/echo", &vec![8u8, 128, 10], &mut out).unwrap();
    assert_eq!(out, vec![8, 128, 10]);

    // The connection stays usable for another exchange.
    let mut out2: Vec<u8> = vec![];
    conn.invoke_into(b"/s.S/echo", &vec![42u8], &mut out2).unwrap();
    assert_eq!(out2, vec![42]);
}

#[test]
fn remote_error_surfaces() {
    let mut conn = client_against(BoomMux);
    let mut st = conn.stream(b"/s.S/echo").unwrap();
    let mut out: Vec<u8> = vec![];
    assert_eq!(
        st.recv_into(conn.transport(), &mut out),
        Err(Error::StateError(State::RemoteError(10, "boom".to_owned())))
    );
    assert_eq!(
        st.send(conn.transport(), &vec![1u8]),
        Err(Error::StateError(State::EOF))
    );
}

#[test]
fn multiple_messages_on_a_stream() {
    let mut conn = client_against(EchoMux);
    let mut st = conn.stream(b"/s.S/echo").unwrap();

    let first: Vec<u8> = vec![1; 100];
    let second: Vec<u8> = vec![2; 1];
    let third: Vec<u8> = vec![3; 100_000];
    st.send(conn.transport(), &first).unwrap();
    st.send(conn.transport(), &second).unwrap();
    st.send(conn.transport(), &third).unwrap();
    st.close_send(conn.transport()).unwrap();
    assert_eq!(st.message_id(), 5);

    let mut out: Vec<u8> = vec![];
    st.recv_into(conn.transport(), &mut out).unwrap();
    assert_eq!(out, first);
    st.recv_into(conn.transport(), &mut out).unwrap();
    assert_eq!(out, second);
    st.recv_into(conn.transport(), &mut out).unwrap();
    assert_eq!(out, third);
    st.close(conn.transport()).unwrap();
    assert_eq!(st.message_id(), 6);
    // The stream is terminated from this side now.
    assert!(st.recv_into(conn.transport(), &mut out).is_err());
}

#[test]
fn stream_numbers_count_up() {
    let mut conn = client_against(EchoMux);
    let st1 = conn.stream(b"/a").unwrap();
    assert_eq!(st1.id(), 1);
    let st2 = conn.stream(b"/b").unwrap();
    assert_eq!(st2.id(), 2);
}
