//! The fixed parts of the code that the interface reader writes.
use vstd::prelude::*;

verus! {

/// The client runtime that the client code opens with: the packed request type,
/// the client, the operand type and the packing function.
pub const PACK_FUNC_STR: &'static str = r#"
#[derive(Serialize, Deserialize, Debug)]
pub struct RpcPacked {
    pub func: String,
    pub operands: Vec<(String, Operand)>,
}

pub struct Client {
    //input_type: InputType; // TODO
    port: u32,
}

impl Client {

    pub fn new(port: u32) -> Self {
        env_logger::init();
        Client { port }
    }

    /// Sends a ASYNC command to the server
    ///
    /// This is a nonblocking call. Client doesn't wait for a response.
    pub fn send_async(&self, expression: &str) -> Result<(), io::Error> {

        let address = format!("127.0.0.1:{}", self.port);

        let mut stream = TcpStream::connect(address)?;

        stream.write_all(expression.as_bytes())?;

        Ok(())
    }
}

#[derive(Serialize, Deserialize, Debug)]
pub enum Operand {
    Int(i64),
    Str(String),
}

impl fmt::Display for Operand {
    fn fmt(&self, f: &mut fmt::Formatter<'_>) -> fmt::Result {
       match self {
           Operand::Int(value) => write!(f, "{}", value),
           Operand::Str(value) => write!(f, "\"{}\"", value),
       }
    }
}

fn pack(func: String, operands: Vec<(String, Operand)>) -> String {

    let json_data = RpcPacked {
        func,
        operands,
    };

    serde_json::to_string(&json_data).unwrap()
}
"#;

/// The server runtime that the server code opens with: the packed request type,
/// the operand type, the function trait, the registry and the server.
pub const UNPACK_FUNC_STR: &'static str = r#"

#[derive(Serialize, Deserialize, Debug)]
pub struct RpcPacked { // TODO should not be pub
    pub func: String,
    pub operands: Vec<(String, Operand)>,
}

#[derive(Serialize, Deserialize, Debug)]
pub enum Operand {
    Int(i64),
    Str(String),
}

pub trait RpcFunction {
    fn call(&self, operands: Vec<Operand>) -> Operand;
}

// Box -> smart pointer for a heap allocated obj
// dyn -> dynamic dispatch (Why needed?)
type RpcFunctionBox = Box<dyn RpcFunction>;

/// stores the functions defined by user
/// user needs to define one for it to work
pub struct FunctionRegistry {
    functions: HashMap<String, RpcFunctionBox>
}

impl FunctionRegistry {
    pub fn new() -> Self {
        Self {
            functions: HashMap::new(),
        }
    }

    pub fn register<F>(&mut self, name: &str, func: F)
    where
        F: RpcFunction + 'static,
    {
        self.functions.insert(name.to_string(), Box::new(func));
    }

    pub fn get(&self, name: &str) -> Option<&RpcFunctionBox> {
        self.functions.get(name)
    }
}

/// Macro to build the registery easily
#[macro_export]
macro_rules! register_functions {
    ($registery:expr, $($name:expr => $func:expr), *) => {
       $(
           $registery.register($name, $func);
       )*
    };
}

pub struct Server {
    // input_type: InputType,
    port: u32,
    registry: FunctionRegistry,
}

impl Server {
    pub fn new(port: u32, registry: FunctionRegistry) -> Self {
        env_logger::init();
        Server { port, registry }
    }

    pub fn start(&self) -> io::Result<()> {
        info!("server BEGIN");

        let address = format!("127.0.0.1:{}", self.port);

        let listener = TcpListener::bind(address)?;

        for stream in listener.incoming() {
            info!("found new stream");

            let stream = stream?;

            self.process_request(stream);
        }

        Ok(())
    }

    /// Input: TcpStream
    ///
    /// Get json from it, parse it, call the function
    ///
    /// {
    ///   "fn": func_name,
    ///   "operands": json_operands 
    /// }
    ///
    /// user will 'register' their functions when they use the pkg. below func would search btw
    /// registered func. If it finds, it processes otherwise ignores it (but logs it)
    pub fn process_request(&self, mut stream: TcpStream) {
        info!("process_request BEGIN");

        let mut buffer = [0; 512];

        match stream.read(&mut buffer) {
            Ok(bytes_read) => {
                info!("Bytes read: {}", bytes_read);

                let mut json_in_str = String::from_utf8_lossy(&buffer[..]).into_owned();

                json_in_str = String::from(json_in_str.trim().trim_matches('\0'));

                info!("{}", json_in_str);

                let json_val: RpcPacked = serde_json::from_str::<RpcPacked>(json_in_str.as_str()).unwrap();

                match self.registry.get(json_val.func.as_str()) {
                    Some(func) => {
                        let ans = func.call(
                            json_val.operands
                            .into_iter()
                            .map(|(_, value)| value)
                            .collect()
                            );
                        info!("answer: {:#?}", ans);
                    }
                    None => {
                        info!("ERROR: {} not found in registry", json_val.func);
                    }
                }
            },
            Err(err) => {
                info!("{}", err);
            }
        }

    }
}

"#;

/// The commented-out example `main` that closes the client code.
pub const DUMMY_CLIENT_MAIN: &'static str = r#"
// -----------------------------------------------
// Dummy client main. For Testing. TODO comment via a flag?
// -----------------------------------------------
//fn main() {
//    let client = Client::new(8000);
//    <() as RpcFunction>::my_func(client, 1);
//}
"#;

/// The commented-out example `main` that closes the server code.
pub const DUMMY_SERVER_MAIN: &'static str = r#"
// -----------------------------------------------
// Dummy server main. For Testing. TODO comment via a flag?
// -----------------------------------------------
//pub struct addAsyncFunc; 
//
//impl RpcFunction for addAsyncFunc {
//    fn call(&self, operands: Vec<Operand>) -> Operand {
//        let mut answer = 0;
//        for operand in operands {
//            match operand {
//                Operand::Int(var) => answer += var,
//                Operand::Str(_) => panic!("Wrong param passed"),
//            }
//        }
//        Operand::Int(answer)
//    }
//}
//
//fn main() {
//    // register my functions
//    let mut registry = FunctionRegistry::new();
//    registry.register("addAsyncFunc", addAsyncFunc);
//    
//    let server = Server::new(8000, registry);
//    let _ = server.start();
//}
"#;

} // verus!
